//! Alerts on process thresholds and process deaths.
//!
//! A check looks at the processes now and at the processes of the previous
//! refresh. It raises an alert for each process that died and matches a
//! death alert, and for each process that has stayed above a CPU or memory
//! threshold for the alert's duration; an alert is raised once per process
//! while it is active, and active alerts expire after five minutes.

use vstd::prelude::*;
use crate::cpu::{f32_gt, f32_less};
use crate::procinfo::{ProcessInfo, ProcessView, views};
use crate::scheduler::{
    clock_now, has_waited, is_later_than_before, later_than_before, waited, Moment,
};
use crate::text::{contains, contains_exec, decimal, decimal_string, owned, push_str, str_eq};

verus! {

// ---------------------------------------------------------------------------
// Alerts
// ---------------------------------------------------------------------------

/// Which processes an alert watches.
#[derive(Clone, Debug)]
pub enum AlertTarget {
    All,
    /// Processes whose name contains the pattern.
    Pattern(String),
    Pid(u32),
}

/// What raises an alert. `threshold_bits` is the bit pattern of an `f32`
/// percentage, `threshold_mb_per_sec_bits` that of an `f64`.
#[derive(Clone, Debug)]
pub enum AlertCondition {
    CpuGreaterThan { threshold_bits: u32, duration_secs: u64 },
    MemoryGreaterThan { threshold_mb: u64, duration_secs: u64 },
    IoGreaterThan { threshold_mb_per_sec_bits: u64, duration_secs: u64 },
    ProcessDied { pattern: String },
}

#[derive(Clone, Debug)]
pub struct Alert {
    pub name: String,
    pub condition: AlertCondition,
    pub target: AlertTarget,
    pub enabled: bool,
}

/// An alert that was raised.
#[derive(Debug)]
pub struct ActiveAlert {
    pub alert_name: String,
    pub triggered_at: Moment,
    pub process_pid: Option<u32>,
    pub process_name: Option<String>,
    pub message: String,
}

/// The model of a raised alert.
pub struct ActiveView {
    pub alert_name: Seq<char>,
    pub triggered_at: Moment,
    pub process_pid: Option<u32>,
    pub process_name: Option<Seq<char>>,
    pub message: Seq<char>,
}

impl View for ActiveAlert {
    type V = ActiveView;

    open spec fn view(&self) -> ActiveView {
        ActiveView {
            alert_name: self.alert_name@,
            triggered_at: self.triggered_at,
            process_pid: self.process_pid,
            process_name: crate::procinfo::opt_view(self.process_name),
            message: self.message@,
        }
    }
}

pub open spec fn active_views(v: Seq<ActiveAlert>) -> Seq<ActiveView> {
    v.map_values(|a: ActiveAlert| a@)
}

/// How long a condition has held: since when, and for how many checks.
pub type Track = (Seq<char>, Moment, u32);

pub open spec fn track_views(v: Seq<(String, Moment, u32)>) -> Seq<Track> {
    v.map_values(|t: (String, Moment, u32)| (t.0@, t.1, t.2))
}

// ---------------------------------------------------------------------------
// What a check does
// ---------------------------------------------------------------------------

/// A process with this PID is running.
pub open spec fn alive(ps: Seq<ProcessView>, pid: u32) -> bool {
    exists|i: int| 0 <= i < ps.len() && ps[i].pid == pid
}

/// An alert `name` is active for the process `pid`.
pub open spec fn has_active(active: Seq<ActiveView>, name: Seq<char>, pid: u32) -> bool {
    exists|k: int|
        0 <= k < active.len() && active[k].alert_name == name && active[k].process_pid == Some(pid)
}

/// `*` matches every name; another pattern matches the names containing it.
pub open spec fn name_matches(pattern: Seq<char>, name: Seq<char>) -> bool {
    pattern == "*"@ || contains(name, pattern)
}

pub open spec fn death_message(name: Seq<char>, pid: u32) -> Seq<char> {
    "Process "@ + name + " ("@ + decimal(pid as nat) + ") died"@
}

/// A death alert for a process of the previous refresh, `(pid, name)`, that
/// is no longer running.
pub open spec fn death_step(
    active: Seq<ActiveView>,
    alert: Alert,
    gone: (u32, Seq<char>),
    ps: Seq<ProcessView>,
    now: Moment,
) -> Seq<ActiveView> {
    match alert.condition {
        AlertCondition::ProcessDied { pattern } => if alert.enabled && !alive(ps, gone.0)
            && name_matches(pattern@, gone.1) && !has_active(active, alert.name@, gone.0) {
            active.push(
                ActiveView {
                    alert_name: alert.name@,
                    triggered_at: now,
                    process_pid: Some(gone.0),
                    process_name: Some(gone.1),
                    message: death_message(gone.1, gone.0),
                },
            )
        } else {
            active
        },
        _ => active,
    }
}

/// One death alert over the processes of the previous refresh, in order.
pub open spec fn deaths_for(
    active: Seq<ActiveView>,
    alert: Alert,
    prev: Seq<(u32, Seq<char>)>,
    ps: Seq<ProcessView>,
    now: Moment,
) -> Seq<ActiveView>
    decreases prev.len(),
{
    if prev.len() == 0 {
        active
    } else {
        death_step(deaths_for(active, alert, prev.drop_last(), ps, now), alert, prev.last(), ps, now)
    }
}

/// All death alerts, in order.
pub open spec fn deaths(
    active: Seq<ActiveView>,
    alerts: Seq<Alert>,
    prev: Seq<(u32, Seq<char>)>,
    ps: Seq<ProcessView>,
    now: Moment,
) -> Seq<ActiveView>
    decreases alerts.len(),
{
    if alerts.len() == 0 {
        active
    } else {
        deaths_for(deaths(active, alerts.drop_last(), prev, ps, now), alerts.last(), prev, ps, now)
    }
}

/// Whether an alert watches process `p`.
pub open spec fn targets(t: AlertTarget, p: ProcessView) -> bool {
    match t {
        AlertTarget::All => true,
        AlertTarget::Pattern(pat) => contains(p.name, pat@),
        AlertTarget::Pid(pid) => p.pid == pid,
    }
}

/// The key under which the condition of alert `name` is tracked for `pid`.
pub open spec fn track_key(name: Seq<char>, pid: u32) -> Seq<char> {
    name + ":"@ + decimal(pid as nat)
}

/// The position of the track of `key`.
pub open spec fn track_index(tr: Seq<Track>, key: Seq<char>) -> Option<int>
    decreases tr.len(),
{
    if tr.len() == 0 {
        None
    } else if tr.last().0 == key {
        Some(tr.len() - 1)
    } else {
        track_index(tr.drop_last(), key)
    }
}

/// The condition still holds: its track counts one more check, or starts now.
pub open spec fn touch(tr: Seq<Track>, key: Seq<char>, now: Moment) -> Seq<Track> {
    match track_index(tr, key) {
        Some(i) => tr.update(i, (key, tr[i].1, tr[i].2.wrapping_add(1))),
        None => tr.push((key, now, 1)),
    }
}

/// Since when the condition has held, counting this check.
pub open spec fn held_since(tr: Seq<Track>, key: Seq<char>, now: Moment) -> Moment {
    match track_index(tr, key) {
        Some(i) => tr[i].1,
        None => now,
    }
}

pub open spec fn other_track(key: Seq<char>) -> spec_fn(Track) -> bool {
    |t: Track| t.0 != key
}

/// How the check of a threshold condition on a process goes: whether the
/// condition holds and for how long it must have held.
pub open spec fn threshold_of(c: AlertCondition, p: ProcessView) -> Option<(bool, u64)> {
    match c {
        AlertCondition::CpuGreaterThan { threshold_bits, duration_secs } => Some(
            (f32_less(threshold_bits, p.cpu_usage_bits), duration_secs),
        ),
        AlertCondition::MemoryGreaterThan { threshold_mb, duration_secs } => Some(
            (p.memory_usage / 1_048_576u64 > threshold_mb, duration_secs),
        ),
        _ => None,
    }
}

/// The message of a threshold alert; `cpu_text` is how the CPU threshold is written.
pub open spec fn threshold_message(alert: Alert, p: ProcessView, cpu_text: Seq<char>) -> Seq<char> {
    let head = alert.name@ + ": Process "@ + p.name + " (PID: "@ + decimal(p.pid as nat) + ") "@;
    match alert.condition {
        AlertCondition::CpuGreaterThan { .. } => head + "CPU > "@ + cpu_text
            + "% for threshold duration"@,
        AlertCondition::MemoryGreaterThan { threshold_mb, .. } => head + "Memory > "@ + decimal(
            threshold_mb as nat,
        ) + "MB for threshold duration"@,
        _ => alert.name@ + ": Alert triggered"@,
    }
}

/// A threshold alert checked against one running process: the tracking is
/// updated, and the alert is raised when the condition has held long enough
/// and it is not already active for the process.
pub open spec fn threshold_step(
    state: (Seq<ActiveView>, Seq<Track>),
    alert: Alert,
    p: ProcessView,
    now: Moment,
    cpu_text: Seq<char>,
) -> (Seq<ActiveView>, Seq<Track>) {
    let (active, tr) = state;
    let key = track_key(alert.name@, p.pid);
    if !alert.enabled || !targets(alert.target, p) {
        state
    } else {
        match threshold_of(alert.condition, p) {
            Some((holds, duration)) => if holds {
                let tr2 = touch(tr, key, now);
                if waited(now, Some(held_since(tr, key, now)), duration as int) && !has_active(
                    active,
                    alert.name@,
                    p.pid,
                ) {
                    (
                        active.push(
                            ActiveView {
                                alert_name: alert.name@,
                                triggered_at: now,
                                process_pid: Some(p.pid),
                                process_name: Some(p.name),
                                message: threshold_message(alert, p, cpu_text),
                            },
                        ),
                        tr2,
                    )
                } else {
                    (active, tr2)
                }
            } else {
                (active, tr.filter(other_track(key)))
            },
            None => state,
        }
    }
}

/// One threshold alert over the running processes, in order.
pub open spec fn thresholds_for(
    state: (Seq<ActiveView>, Seq<Track>),
    alert: Alert,
    ps: Seq<ProcessView>,
    now: Moment,
    cpu_text: Seq<char>,
) -> (Seq<ActiveView>, Seq<Track>)
    decreases ps.len(),
{
    if ps.len() == 0 {
        state
    } else {
        threshold_step(
            thresholds_for(state, alert, ps.drop_last(), now, cpu_text),
            alert,
            ps.last(),
            now,
            cpu_text,
        )
    }
}

/// All threshold alerts, in order; `cpu_texts[k]` writes the CPU threshold of alert `k`.
pub open spec fn thresholds(
    state: (Seq<ActiveView>, Seq<Track>),
    alerts: Seq<Alert>,
    cpu_texts: Seq<Seq<char>>,
    ps: Seq<ProcessView>,
    now: Moment,
) -> (Seq<ActiveView>, Seq<Track>)
    decreases alerts.len(),
{
    if alerts.len() == 0 {
        state
    } else {
        thresholds_for(
            thresholds(state, alerts.drop_last(), cpu_texts, ps, now),
            alerts.last(),
            ps,
            now,
            cpu_texts[alerts.len() - 1],
        )
    }
}

/// Alerts raised less than five minutes before `now`.
pub open spec fn recent(now: Moment) -> spec_fn(ActiveView) -> bool {
    |a: ActiveView| later_than_before(a.triggered_at, now, 300)
}

pub open spec fn str_seq_views(v: Seq<String>) -> Seq<Seq<char>> {
    v.map_values(|s: String| s@)
}

pub open spec fn prev_views(v: Seq<(u32, String)>) -> Seq<(u32, Seq<char>)> {
    v.map_values(|e: (u32, String)| (e.0, e.1@))
}

// ---------------------------------------------------------------------------
// Executable steps
// ---------------------------------------------------------------------------

fn is_alive(ps: &[ProcessInfo], pid: u32) -> (r: bool)
    ensures
        r == alive(views(ps@), pid),
{
    let ghost pv = views(ps@);
    let mut i: usize = 0;
    while i < ps.len()
        invariant
            i <= ps.len(),
            pv == views(ps@),
            forall|m: int| 0 <= m < i ==> pv[m].pid != pid,
        decreases ps.len() - i,
    {
        if ps[i].pid == pid {
            assert(pv[i as int].pid == pid);
            return true;
        }
        i += 1;
    }
    false
}

fn is_active(active: &Vec<ActiveAlert>, name: &str, pid: u32) -> (r: bool)
    ensures
        r == has_active(active_views(active@), name@, pid),
{
    let ghost av = active_views(active@);
    let mut i: usize = 0;
    while i < active.len()
        invariant
            i <= active.len(),
            av == active_views(active@),
            forall|m: int|
                0 <= m < i ==> !(av[m].alert_name == name@ && av[m].process_pid == Some(pid)),
        decreases active.len() - i,
    {
        if active[i].process_pid == Some(pid) && str_eq(active[i].alert_name.as_str(), name) {
            assert(av[i as int].alert_name == name@ && av[i as int].process_pid == Some(pid));
            return true;
        }
        i += 1;
    }
    false
}

fn death_text(name: &str, pid: u32) -> (r: String)
    ensures
        r@ == death_message(name@, pid),
{
    let mut r = owned("Process ");
    push_str(&mut r, name);
    push_str(&mut r, " (");
    let d = decimal_string(pid as u64);
    push_str(&mut r, d.as_str());
    push_str(&mut r, ") died");
    r
}

fn death_check(
    active: &mut Vec<ActiveAlert>,
    alert: &Alert,
    pid: u32,
    name: &String,
    ps: &[ProcessInfo],
    now: Moment,
)
    ensures
        active_views(final(active)@) == death_step(
            active_views(old(active)@),
            *alert,
            (pid, name@),
            views(ps@),
            now,
        ),
{
    if let AlertCondition::ProcessDied { pattern } = &alert.condition {
        if alert.enabled && !is_alive(ps, pid) && (str_eq(pattern.as_str(), "*")
            || contains_exec(name.as_str(), pattern.as_str())) && !is_active(
            active,
            alert.name.as_str(),
            pid,
        ) {
            let ghost before = active@;
            active.push(
                ActiveAlert {
                    alert_name: alert.name.clone(),
                    triggered_at: now,
                    process_pid: Some(pid),
                    process_name: Some(name.clone()),
                    message: death_text(name.as_str(), pid),
                },
            );
            assert(active_views(active@) =~= active_views(before).push(
                ActiveView {
                    alert_name: alert.name@,
                    triggered_at: now,
                    process_pid: Some(pid),
                    process_name: Some(name@),
                    message: death_message(name@, pid),
                },
            ));
        }
    }
}

fn is_target(t: &AlertTarget, p: &ProcessInfo) -> (r: bool)
    ensures
        r == targets(*t, p@),
{
    match t {
        AlertTarget::All => true,
        AlertTarget::Pattern(pat) => contains_exec(p.name.as_str(), pat.as_str()),
        AlertTarget::Pid(pid) => p.pid == *pid,
    }
}

fn key_text(name: &str, pid: u32) -> (r: String)
    ensures
        r@ == track_key(name@, pid),
{
    let mut r = owned(name);
    push_str(&mut r, ":");
    let d = decimal_string(pid as u64);
    push_str(&mut r, d.as_str());
    r
}

fn find_track(tr: &Vec<(String, Moment, u32)>, key: &str) -> (res: Option<usize>)
    ensures
        res matches Some(i) ==> track_index(track_views(tr@), key@) == Some(i as int),
        res is None ==> track_index(track_views(tr@), key@) is None,
{
    let mut i = tr.len();
    assert(track_views(tr@).take(tr.len() as int) =~= track_views(tr@));
    while i > 0
        invariant
            i <= tr.len(),
            track_index(track_views(tr@), key@) == track_index(
                track_views(tr@).take(i as int),
                key@,
            ),
        decreases i,
    {
        let ghost t = track_views(tr@).take(i as int);
        assert(t.last() == track_views(tr@)[i - 1]);
        assert(t.drop_last() =~= track_views(tr@).take(i - 1));
        if str_eq(tr[i - 1].0.as_str(), key) {
            return Some(i - 1);
        }
        i -= 1;
    }
    None
}

proof fn lemma_track_index(tr: Seq<Track>, key: Seq<char>)
    ensures
        track_index(tr, key) matches Some(i) ==> 0 <= i < tr.len() && tr[i].0 == key,
    decreases tr.len(),
{
    if tr.len() > 0 && tr.last().0 != key {
        lemma_track_index(tr.drop_last(), key);
    }
}

/// Counts one more check for `key`, or starts tracking it at `now`; returns
/// since when the condition has held.
fn touch_track(tr: &mut Vec<(String, Moment, u32)>, key: &str, now: Moment) -> (since: Moment)
    ensures
        track_views(final(tr)@) == touch(track_views(old(tr)@), key@, now),
        since == held_since(track_views(old(tr)@), key@, now),
{
    match find_track(tr, key) {
        Some(i) => {
            proof {
                lemma_track_index(track_views(tr@), key@);
            }
            let since = tr[i].1;
            let count = tr[i].2.wrapping_add(1);
            let k = owned(key);
            let ghost before = tr@;
            tr.set(i, (k, since, count));
            assert(track_views(tr@) =~= track_views(before).update(
                i as int,
                (key@, since, before[i as int].2.wrapping_add(1)),
            ));
            since
        },
        None => {
            let ghost before = tr@;
            tr.push((owned(key), now, 1));
            assert(track_views(tr@) =~= track_views(before).push((key@, now, 1u32)));
            now
        },
    }
}

/// Stops tracking `key`.
fn drop_track(tr: &mut Vec<(String, Moment, u32)>, key: &str)
    ensures
        track_views(final(tr)@) == track_views(old(tr)@).filter(other_track(key@)),
{
    let ghost all = track_views(tr@);
    let mut kept: Vec<(String, Moment, u32)> = Vec::new();
    let mut i: usize = 0;
    while i < tr.len()
        invariant
            i <= tr.len(),
            all == track_views(tr@),
            track_views(kept@) == all.take(i as int).filter(other_track(key@)),
        decreases tr.len() - i,
    {
        proof {
            reveal(Seq::filter);
            assert(all.take(i + 1).drop_last() =~= all.take(i as int));
            assert(all.take(i + 1).last() == all[i as int]);
        }
        if !str_eq(tr[i].0.as_str(), key) {
            let ghost before = kept@;
            let e = (tr[i].0.clone(), tr[i].1, tr[i].2);
            kept.push(e);
            assert(track_views(kept@) =~= track_views(before).push(all[i as int]));
        }
        i += 1;
    }
    assert(all.take(tr.len() as int) =~= all);
    *tr = kept;
}

fn threshold_text(alert: &Alert, p: &ProcessInfo, cpu_text: &str) -> (r: String)
    ensures
        r@ == threshold_message(*alert, p@, cpu_text@),
{
    match &alert.condition {
        AlertCondition::CpuGreaterThan { .. } => {
            let mut r = owned(alert.name.as_str());
            push_str(&mut r, ": Process ");
            push_str(&mut r, p.name.as_str());
            push_str(&mut r, " (PID: ");
            let d = decimal_string(p.pid as u64);
            push_str(&mut r, d.as_str());
            push_str(&mut r, ") ");
            push_str(&mut r, "CPU > ");
            push_str(&mut r, cpu_text);
            push_str(&mut r, "% for threshold duration");
            r
        },
        AlertCondition::MemoryGreaterThan { threshold_mb, .. } => {
            let mut r = owned(alert.name.as_str());
            push_str(&mut r, ": Process ");
            push_str(&mut r, p.name.as_str());
            push_str(&mut r, " (PID: ");
            let d = decimal_string(p.pid as u64);
            push_str(&mut r, d.as_str());
            push_str(&mut r, ") ");
            push_str(&mut r, "Memory > ");
            let t = decimal_string(*threshold_mb);
            push_str(&mut r, t.as_str());
            push_str(&mut r, "MB for threshold duration");
            r
        },
        _ => {
            let mut r = owned(alert.name.as_str());
            push_str(&mut r, ": Alert triggered");
            r
        },
    }
}

fn threshold_check(
    active: &mut Vec<ActiveAlert>,
    tr: &mut Vec<(String, Moment, u32)>,
    alert: &Alert,
    p: &ProcessInfo,
    now: Moment,
    cpu_text: &String,
)
    ensures
        (active_views(final(active)@), track_views(final(tr)@)) == threshold_step(
            (active_views(old(active)@), track_views(old(tr)@)),
            *alert,
            p@,
            now,
            cpu_text@,
        ),
{
    if !alert.enabled || !is_target(&alert.target, p) {
        return;
    }
    let cond: Option<(bool, u64)> = match &alert.condition {
        AlertCondition::CpuGreaterThan { threshold_bits, duration_secs } => Some(
            (f32_gt(p.cpu_usage_bits, *threshold_bits), *duration_secs),
        ),
        AlertCondition::MemoryGreaterThan { threshold_mb, duration_secs } => Some(
            (p.memory_usage / 1_048_576u64 > *threshold_mb, *duration_secs),
        ),
        _ => None,
    };
    assert(cond == threshold_of(alert.condition, p@));
    if let Some((holds, duration)) = cond {
        let key = key_text(alert.name.as_str(), p.pid);
        if holds {
            let since = touch_track(tr, key.as_str(), now);
            if has_waited(now, Some(since), duration) && !is_active(
                active,
                alert.name.as_str(),
                p.pid,
            ) {
                let ghost before = active@;
                let message = threshold_text(alert, p, cpu_text.as_str());
                active.push(
                    ActiveAlert {
                        alert_name: alert.name.clone(),
                        triggered_at: now,
                        process_pid: Some(p.pid),
                        process_name: Some(p.name.clone()),
                        message,
                    },
                );
                assert(active_views(active@) =~= active_views(before).push(
                    ActiveView {
                        alert_name: alert.name@,
                        triggered_at: now,
                        process_pid: Some(p.pid),
                        process_name: Some(p@.name),
                        message: threshold_message(*alert, p@, cpu_text@),
                    },
                ));
            }
        } else {
            drop_track(tr, key.as_str());
        }
    }
}

// ---------------------------------------------------------------------------
// The alert manager
// ---------------------------------------------------------------------------

/// The condition of an edited alert: a CPU alert takes the new threshold
/// (the bits of an `f32`) and duration, a memory alert the new threshold in
/// MB and duration; other conditions stay as they were.
pub open spec fn edited_condition(
    c: AlertCondition,
    threshold_bits: u32,
    threshold_mb: u64,
    duration_secs: u64,
) -> AlertCondition {
    match c {
        AlertCondition::CpuGreaterThan { .. } => AlertCondition::CpuGreaterThan {
            threshold_bits,
            duration_secs,
        },
        AlertCondition::MemoryGreaterThan { .. } => AlertCondition::MemoryGreaterThan {
            threshold_mb,
            duration_secs,
        },
        _ => c,
    }
}

/// The alerts, the alerts raised, and how long each threshold condition has
/// held (by `alert:pid`, each key at most once).
pub struct AlertManager {
    alerts: Vec<Alert>,
    active_alerts: Vec<ActiveAlert>,
    condition_tracking: Vec<(String, Moment, u32)>,
    config_path: String,
}

impl AlertManager {
    pub closed spec fn spec_alerts(&self) -> Seq<Alert> {
        self.alerts@
    }

    pub closed spec fn spec_active(&self) -> Seq<ActiveView> {
        active_views(self.active_alerts@)
    }

    pub closed spec fn spec_tracking(&self) -> Seq<Track> {
        track_views(self.condition_tracking@)
    }

    pub closed spec fn spec_config_path(&self) -> Seq<char> {
        self.config_path@
    }

    /// A manager with no alerts, whose alerts are saved in `config_path`.
    pub fn with_config_path(config_path: String) -> (m: Self)
        ensures
            m.spec_alerts().len() == 0,
            m.spec_active().len() == 0,
            m.spec_tracking().len() == 0,
            m.spec_config_path() == config_path@,
    {
        let m = AlertManager {
            alerts: Vec::new(),
            active_alerts: Vec::new(),
            condition_tracking: Vec::new(),
            config_path,
        };
        assert(active_views(m.active_alerts@) =~= Seq::empty());
        assert(track_views(m.condition_tracking@) =~= Seq::empty());
        m
    }

    /// A manager with no alerts yet, saving to `~/.lpm/alerts.toml`
    /// (`./alerts.toml` without a home directory). Loading the saved alerts
    /// is the caller's work.
    pub fn new() -> (m: Self)
        ensures
            m.spec_alerts().len() == 0,
            m.spec_active().len() == 0,
            m.spec_tracking().len() == 0,
            exists|home: Option<Seq<char>>|
                m.spec_config_path() == crate::paths::join_path(crate::paths::config_dir(home), "alerts.toml"@),
    {
        let home = crate::paths::home_dir();
        let ghost h = match &home {
            Some(x) => Some(x@),
            None => None::<Seq<char>>,
        };
        let path = crate::paths::config_file(home, "alerts.toml");
        let m = Self::with_config_path(path);
        assert(m.spec_config_path() == crate::paths::join_path(crate::paths::config_dir(h), "alerts.toml"@));
        m
    }

    /// Where the alerts are saved.
    pub fn config_path(&self) -> (p: &str)
        ensures
            p@ == self.spec_config_path(),
    {
        self.config_path.as_str()
    }

    pub fn get_alerts(&self) -> (res: &[Alert])
        ensures
            res@ == self.spec_alerts(),
    {
        self.alerts.as_slice()
    }

    /// The alerts, for the caller to edit in place.
    pub fn get_alerts_mut(&mut self) -> (res: &mut Vec<Alert>)
        ensures
            res@ == old(self).spec_alerts(),
            final(self).spec_alerts() == final(res)@,
            final(self).spec_active() == old(self).spec_active(),
            final(self).spec_tracking() == old(self).spec_tracking(),
            final(self).spec_config_path() == old(self).spec_config_path(),
    {
        &mut self.alerts
    }

    pub fn add_alert(&mut self, alert: Alert)
        ensures
            final(self).spec_alerts() == old(self).spec_alerts().push(alert),
            final(self).spec_active() == old(self).spec_active(),
            final(self).spec_tracking() == old(self).spec_tracking(),
            final(self).spec_config_path() == old(self).spec_config_path(),
    {
        self.alerts.push(alert);
    }

    /// Removes and returns the alert at `index`, if there is one.
    pub fn remove_alert(&mut self, index: usize) -> (res: Option<Alert>)
        ensures
            index < old(self).spec_alerts().len() ==> res == Some(old(self).spec_alerts()[index as int])
                && final(self).spec_alerts() == old(self).spec_alerts().remove(index as int),
            index >= old(self).spec_alerts().len() ==> res is None && final(self).spec_alerts()
                == old(self).spec_alerts(),
            final(self).spec_active() == old(self).spec_active(),
            final(self).spec_tracking() == old(self).spec_tracking(),
            final(self).spec_config_path() == old(self).spec_config_path(),
    {
        if index < self.alerts.len() {
            Some(self.alerts.remove(index))
        } else {
            None
        }
    }

    /// Enables a disabled alert or disables an enabled one; `false` when
    /// there is no alert at `index`.
    pub fn toggle_alert(&mut self, index: usize) -> (res: bool)
        ensures
            res == (index < old(self).spec_alerts().len()),
            res ==> final(self).spec_alerts() == old(self).spec_alerts().update(
                index as int,
                Alert {
                    enabled: !old(self).spec_alerts()[index as int].enabled,
                    ..old(self).spec_alerts()[index as int]
                },
            ),
            !res ==> final(self).spec_alerts() == old(self).spec_alerts(),
            final(self).spec_active() == old(self).spec_active(),
            final(self).spec_tracking() == old(self).spec_tracking(),
            final(self).spec_config_path() == old(self).spec_config_path(),
    {
        if index < self.alerts.len() {
            let flipped = !self.alerts[index].enabled;
            self.alerts[index].enabled = flipped;
            assert(self.alerts@ =~= old(self).alerts@.update(
                index as int,
                Alert { enabled: !old(self).alerts@[index as int].enabled, ..old(self).alerts@[index as int] },
            ));
            true
        } else {
            false
        }
    }

    /// Renames the alert at `index` and sets the threshold and duration of
    /// a CPU or memory alert (see `edited_condition`); `false` when there
    /// is no alert at `index`.
    pub fn edit_alert(
        &mut self,
        index: usize,
        name: String,
        threshold_bits: u32,
        threshold_mb: u64,
        duration_secs: u64,
    ) -> (res: bool)
        ensures
            res == (index < old(self).spec_alerts().len()),
            res ==> final(self).spec_alerts() == old(self).spec_alerts().update(
                index as int,
                Alert {
                    name,
                    condition: edited_condition(
                        old(self).spec_alerts()[index as int].condition,
                        threshold_bits,
                        threshold_mb,
                        duration_secs,
                    ),
                    ..old(self).spec_alerts()[index as int]
                },
            ),
            !res ==> final(self).spec_alerts() == old(self).spec_alerts(),
            final(self).spec_active() == old(self).spec_active(),
            final(self).spec_tracking() == old(self).spec_tracking(),
            final(self).spec_config_path() == old(self).spec_config_path(),
    {
        if index >= self.alerts.len() {
            return false;
        }
        let condition = match &self.alerts[index].condition {
            AlertCondition::CpuGreaterThan { .. } => Some(
                AlertCondition::CpuGreaterThan { threshold_bits, duration_secs },
            ),
            AlertCondition::MemoryGreaterThan { .. } => Some(
                AlertCondition::MemoryGreaterThan { threshold_mb, duration_secs },
            ),
            _ => None,
        };
        self.alerts[index].name = name;
        match condition {
            Some(c) => {
                self.alerts[index].condition = c;
            },
            None => {},
        }
        assert(self.alerts@ =~= old(self).alerts@.update(
            index as int,
            Alert {
                name,
                condition: edited_condition(
                    old(self).alerts@[index as int].condition,
                    threshold_bits,
                    threshold_mb,
                    duration_secs,
                ),
                ..old(self).alerts@[index as int]
            },
        ));
        true
    }

    pub fn get_active_alerts(&self) -> (res: &[ActiveAlert])
        ensures
            active_views(res@) == self.spec_active(),
    {
        self.active_alerts.as_slice()
    }

    /// Whether some raised alert names the process `pid` (such processes
    /// stand out in the process list).
    pub fn has_alert_for(&self, pid: u32) -> (res: bool)
        ensures
            res == (exists|k: int|
                0 <= k < self.spec_active().len() && (#[trigger] self.spec_active()[k]).process_pid
                    == Some(pid)),
    {
        let mut i: usize = 0;
        while i < self.active_alerts.len()
            invariant
                i <= self.active_alerts@.len(),
                forall|k: int|
                    0 <= k < i ==> (#[trigger] active_views(self.active_alerts@)[k]).process_pid
                        != Some(pid),
            decreases self.active_alerts.len() - i,
        {
            if self.active_alerts[i].process_pid == Some(pid) {
                assert(active_views(self.active_alerts@)[i as int].process_pid == Some(pid));
                return true;
            }
            i += 1;
        }
        false
    }

    /// Dismisses the raised alert at `index`, if there is one.
    pub fn clear_active_alert(&mut self, index: usize)
        ensures
            index < old(self).spec_active().len() ==> final(self).spec_active() == old(
                self,
            ).spec_active().remove(index as int),
            index >= old(self).spec_active().len() ==> final(self).spec_active() == old(
                self,
            ).spec_active(),
            final(self).spec_alerts() == old(self).spec_alerts(),
            final(self).spec_tracking() == old(self).spec_tracking(),
            final(self).spec_config_path() == old(self).spec_config_path(),
    {
        if index < self.active_alerts.len() {
            self.active_alerts.remove(index);
            assert(active_views(self.active_alerts@) =~= active_views(old(self).active_alerts@).remove(
                index as int,
            ));
        }
    }

    /// Dismisses every raised alert.
    pub fn clear_all_active_alerts(&mut self)
        ensures
            final(self).spec_active().len() == 0,
            final(self).spec_alerts() == old(self).spec_alerts(),
            final(self).spec_tracking() == old(self).spec_tracking(),
            final(self).spec_config_path() == old(self).spec_config_path(),
    {
        self.active_alerts.clear();
    }

    /// Checks the alerts against the running processes now, given the
    /// processes of the previous refresh as `(pid, name)` pairs.
    /// `cpu_threshold_texts[k]` is how the CPU threshold of alert `k` is
    /// written in messages (the decimal form of the `f32`).
    pub fn check_alerts(
        &mut self,
        processes: &[ProcessInfo],
        prev_processes: &[(u32, String)],
        cpu_threshold_texts: &[String],
    )
        requires
            cpu_threshold_texts@.len() == old(self).spec_alerts().len(),
        ensures
            exists|now: Moment|
                final(self).spec_active() == #[trigger] checked_active(
                    old(self).spec_active(),
                    old(self).spec_tracking(),
                    old(self).spec_alerts(),
                    str_seq_views(cpu_threshold_texts@),
                    prev_views(prev_processes@),
                    views(processes@),
                    now,
                ) && final(self).spec_tracking() == checked_tracking(
                    old(self).spec_active(),
                    old(self).spec_tracking(),
                    old(self).spec_alerts(),
                    str_seq_views(cpu_threshold_texts@),
                    prev_views(prev_processes@),
                    views(processes@),
                    now,
                ),
            final(self).spec_alerts() == old(self).spec_alerts(),
            final(self).spec_config_path() == old(self).spec_config_path(),
    {
        let now = clock_now();
        self.check_alerts_at(processes, prev_processes, cpu_threshold_texts, now);
        assert(final(self).spec_active() == checked_active(
            old(self).spec_active(),
            old(self).spec_tracking(),
            old(self).spec_alerts(),
            str_seq_views(cpu_threshold_texts@),
            prev_views(prev_processes@),
            views(processes@),
            now,
        ));
    }

    /// Checks the alerts against the running processes at `now`.
    pub fn check_alerts_at(
        &mut self,
        processes: &[ProcessInfo],
        prev_processes: &[(u32, String)],
        cpu_threshold_texts: &[String],
        now: Moment,
    )
        requires
            cpu_threshold_texts@.len() == old(self).spec_alerts().len(),
        ensures
            final(self).spec_active() == checked_active(
                old(self).spec_active(),
                old(self).spec_tracking(),
                old(self).spec_alerts(),
                str_seq_views(cpu_threshold_texts@),
                prev_views(prev_processes@),
                views(processes@),
                now,
            ),
            final(self).spec_tracking() == checked_tracking(
                old(self).spec_active(),
                old(self).spec_tracking(),
                old(self).spec_alerts(),
                str_seq_views(cpu_threshold_texts@),
                prev_views(prev_processes@),
                views(processes@),
                now,
            ),
            final(self).spec_alerts() == old(self).spec_alerts(),
            final(self).spec_config_path() == old(self).spec_config_path(),
    {
        let ghost alerts = self.alerts@;
        let ghost pv = views(processes@);
        let ghost prev = prev_views(prev_processes@);
        let ghost texts = str_seq_views(cpu_threshold_texts@);
        let ghost active0 = active_views(self.active_alerts@);
        let ghost tr0 = track_views(self.condition_tracking@);
        let n = self.alerts.len();
        // Deaths.
        let mut k: usize = 0;
        while k < n
            invariant
                n == alerts.len() == self.alerts@.len(),
                alerts == self.alerts@,
                pv == views(processes@),
                prev == prev_views(prev_processes@),
                k <= n,
                active_views(self.active_alerts@) == deaths(active0, alerts.take(k as int), prev, pv, now),
                track_views(self.condition_tracking@) == tr0,
                self.config_path == old(self).config_path,
            decreases n - k,
        {
            let ghost start = active_views(self.active_alerts@);
            let mut e: usize = 0;
            while e < prev_processes.len()
                invariant
                    n == alerts.len() == self.alerts@.len(),
                    alerts == self.alerts@,
                    k < n,
                    pv == views(processes@),
                    prev == prev_views(prev_processes@),
                    e <= prev_processes.len(),
                    active_views(self.active_alerts@) == deaths_for(
                        start,
                        alerts[k as int],
                        prev.take(e as int),
                        pv,
                        now,
                    ),
                    track_views(self.condition_tracking@) == tr0,
                    self.config_path == old(self).config_path,
                decreases prev_processes.len() - e,
            {
                let (pid, name) = (prev_processes[e].0, &prev_processes[e].1);
                death_check(&mut self.active_alerts, &self.alerts[k], pid, name, processes, now);
                assert(prev.take(e + 1).drop_last() =~= prev.take(e as int));
                assert(prev.take(e + 1).last() == (pid, name@));
                e += 1;
            }
            assert(prev.take(prev_processes.len() as int) =~= prev);
            assert(alerts.take(k + 1).drop_last() =~= alerts.take(k as int));
            assert(alerts.take(k + 1).last() == alerts[k as int]);
            k += 1;
        }
        assert(alerts.take(n as int) =~= alerts);
        let ghost active1 = active_views(self.active_alerts@);
        // Thresholds.
        let mut k: usize = 0;
        while k < n
            invariant
                n == alerts.len() == self.alerts@.len() == texts.len(),
                alerts == self.alerts@,
                texts == str_seq_views(cpu_threshold_texts@),
                pv == views(processes@),
                k <= n,
                (active_views(self.active_alerts@), track_views(self.condition_tracking@))
                    == thresholds((active1, tr0), alerts.take(k as int), texts, pv, now),
                self.config_path == old(self).config_path,
            decreases n - k,
        {
            let ghost start = (active_views(self.active_alerts@), track_views(self.condition_tracking@));
            let mut i: usize = 0;
            while i < processes.len()
                invariant
                    n == alerts.len() == self.alerts@.len() == texts.len(),
                    alerts == self.alerts@,
                    texts == str_seq_views(cpu_threshold_texts@),
                    k < n,
                    pv == views(processes@),
                    i <= processes.len(),
                    (active_views(self.active_alerts@), track_views(self.condition_tracking@))
                        == thresholds_for(start, alerts[k as int], pv.take(i as int), now, texts[k as int]),
                    self.config_path == old(self).config_path,
                decreases processes.len() - i,
            {
                threshold_check(
                    &mut self.active_alerts,
                    &mut self.condition_tracking,
                    &self.alerts[k],
                    &processes[i],
                    now,
                    &cpu_threshold_texts[k],
                );
                assert(pv.take(i + 1).drop_last() =~= pv.take(i as int));
                assert(pv.take(i + 1).last() == processes@[i as int]@);
                i += 1;
            }
            assert(pv.take(processes.len() as int) =~= pv);
            assert(alerts.take(k + 1).drop_last() =~= alerts.take(k as int));
            assert(alerts.take(k + 1).last() == alerts[k as int]);
            assert(thresholds((active1, tr0), alerts.take(k + 1), texts, pv, now) == thresholds_for(
                thresholds((active1, tr0), alerts.take(k as int), texts, pv, now),
                alerts[k as int],
                pv,
                now,
                texts[k as int],
            ));
            k += 1;
        }
        assert(alerts.take(n as int) =~= alerts);
        // Expiry.
        let ghost before = active_views(self.active_alerts@);
        let mut kept: Vec<ActiveAlert> = Vec::new();
        let mut rest: Vec<ActiveAlert> = Vec::new();
        std::mem::swap(&mut rest, &mut self.active_alerts);
        let ghost all = rest@;
        let m = rest.len();
        let mut j: usize = 0;
        while j < m
            invariant
                m == all.len(),
                active_views(all) == before,
                j <= m,
                rest@ == all.skip(j as int),
                active_views(kept@) == before.take(j as int).filter(recent(now)),
            decreases m - j,
        {
            let a = rest.remove(0);
            proof {
                assert(a == all[j as int]);
                assert(all.skip(j as int).drop_first() =~= all.skip(j + 1));
                reveal(Seq::filter);
                assert(before.take(j + 1).drop_last() =~= before.take(j as int));
                assert(before.take(j + 1).last() == a@);
            }
            if is_later_than_before(a.triggered_at, now, 300) {
                let ghost kb = kept@;
                kept.push(a);
                assert(active_views(kept@) =~= active_views(kb).push(a@));
            }
            j += 1;
        }
        assert(before.take(m as int) =~= before);
        self.active_alerts = kept;
    }
}

/// The raised alerts after a check at `now`: death alerts, then threshold
/// alerts, then those older than five minutes dropped.
pub open spec fn checked_active(
    active: Seq<ActiveView>,
    tracking: Seq<Track>,
    alerts: Seq<Alert>,
    cpu_texts: Seq<Seq<char>>,
    prev: Seq<(u32, Seq<char>)>,
    ps: Seq<ProcessView>,
    now: Moment,
) -> Seq<ActiveView> {
    thresholds((deaths(active, alerts, prev, ps, now), tracking), alerts, cpu_texts, ps, now).0.filter(
        recent(now),
    )
}

/// The condition tracking after a check at `now`.
pub open spec fn checked_tracking(
    active: Seq<ActiveView>,
    tracking: Seq<Track>,
    alerts: Seq<Alert>,
    cpu_texts: Seq<Seq<char>>,
    prev: Seq<(u32, Seq<char>)>,
    ps: Seq<ProcessView>,
    now: Moment,
) -> Seq<Track> {
    thresholds((deaths(active, alerts, prev, ps, now), tracking), alerts, cpu_texts, ps, now).1
}

// ---------------------------------------------------------------------------
// Laws of the alert check
// ---------------------------------------------------------------------------

/// The raised alerts `a` and `b` are for the same alert and the same process.
pub open spec fn same_event(a: ActiveView, b: ActiveView) -> bool {
    a.alert_name == b.alert_name && a.process_pid is Some && a.process_pid == b.process_pid
}

/// No alert is raised twice for one process.
pub open spec fn no_repeats(active: Seq<ActiveView>) -> bool {
    forall|a: int, b: int| 0 <= a < b < active.len() ==> !same_event(active[a], active[b])
}

proof fn lemma_push_fresh(active: Seq<ActiveView>, x: ActiveView)
    requires
        no_repeats(active),
        x.process_pid is Some,
        !has_active(active, x.alert_name, x.process_pid->0),
    ensures
        no_repeats(active.push(x)),
{
    assert forall|a: int, b: int| 0 <= a < b < active.push(x).len() implies !same_event(
        active.push(x)[a],
        active.push(x)[b],
    ) by {
        if b == active.len() {
            assert(active.push(x)[a] == active[a]);
        }
    }
}

proof fn lemma_deaths_no_repeats(
    active: Seq<ActiveView>,
    alerts: Seq<Alert>,
    prev: Seq<(u32, Seq<char>)>,
    ps: Seq<ProcessView>,
    now: Moment,
)
    requires
        no_repeats(active),
    ensures
        no_repeats(deaths(active, alerts, prev, ps, now)),
    decreases alerts.len(),
{
    if alerts.len() > 0 {
        lemma_deaths_no_repeats(active, alerts.drop_last(), prev, ps, now);
        lemma_deaths_for_no_repeats(
            deaths(active, alerts.drop_last(), prev, ps, now),
            alerts.last(),
            prev,
            ps,
            now,
        );
    }
}

proof fn lemma_deaths_for_no_repeats(
    active: Seq<ActiveView>,
    alert: Alert,
    prev: Seq<(u32, Seq<char>)>,
    ps: Seq<ProcessView>,
    now: Moment,
)
    requires
        no_repeats(active),
    ensures
        no_repeats(deaths_for(active, alert, prev, ps, now)),
    decreases prev.len(),
{
    if prev.len() > 0 {
        lemma_deaths_for_no_repeats(active, alert, prev.drop_last(), ps, now);
        let a0 = deaths_for(active, alert, prev.drop_last(), ps, now);
        let gone = prev.last();
        if let AlertCondition::ProcessDied { pattern } = alert.condition {
            if alert.enabled && !alive(ps, gone.0) && name_matches(pattern@, gone.1) && !has_active(
                a0,
                alert.name@,
                gone.0,
            ) {
                lemma_push_fresh(
                    a0,
                    ActiveView {
                        alert_name: alert.name@,
                        triggered_at: now,
                        process_pid: Some(gone.0),
                        process_name: Some(gone.1),
                        message: death_message(gone.1, gone.0),
                    },
                );
            }
        }
    }
}

proof fn lemma_thresholds_for_no_repeats(
    state: (Seq<ActiveView>, Seq<Track>),
    alert: Alert,
    ps: Seq<ProcessView>,
    now: Moment,
    cpu_text: Seq<char>,
)
    requires
        no_repeats(state.0),
    ensures
        no_repeats(thresholds_for(state, alert, ps, now, cpu_text).0),
    decreases ps.len(),
{
    if ps.len() > 0 {
        lemma_thresholds_for_no_repeats(state, alert, ps.drop_last(), now, cpu_text);
        let st = thresholds_for(state, alert, ps.drop_last(), now, cpu_text);
        let p = ps.last();
        let key = track_key(alert.name@, p.pid);
        if alert.enabled && targets(alert.target, p) {
            if let Some((holds, duration)) = threshold_of(alert.condition, p) {
                if holds && waited(now, Some(held_since(st.1, key, now)), duration as int)
                    && !has_active(st.0, alert.name@, p.pid) {
                    lemma_push_fresh(
                        st.0,
                        ActiveView {
                            alert_name: alert.name@,
                            triggered_at: now,
                            process_pid: Some(p.pid),
                            process_name: Some(p.name),
                            message: threshold_message(alert, p, cpu_text),
                        },
                    );
                }
            }
        }
    }
}

proof fn lemma_thresholds_no_repeats(
    state: (Seq<ActiveView>, Seq<Track>),
    alerts: Seq<Alert>,
    cpu_texts: Seq<Seq<char>>,
    ps: Seq<ProcessView>,
    now: Moment,
)
    requires
        no_repeats(state.0),
    ensures
        no_repeats(thresholds(state, alerts, cpu_texts, ps, now).0),
    decreases alerts.len(),
{
    if alerts.len() > 0 {
        lemma_thresholds_no_repeats(state, alerts.drop_last(), cpu_texts, ps, now);
        lemma_thresholds_for_no_repeats(
            thresholds(state, alerts.drop_last(), cpu_texts, ps, now),
            alerts.last(),
            ps,
            now,
            cpu_texts[alerts.len() - 1],
        );
    }
}

proof fn lemma_filter_no_repeats(s: Seq<ActiveView>, f: spec_fn(ActiveView) -> bool)
    requires
        no_repeats(s),
    ensures
        no_repeats(s.filter(f)),
    decreases s.len(),
{
    reveal(Seq::filter);
    if s.len() > 0 {
        let pre = s.drop_last();
        assert(no_repeats(pre)) by {
            assert forall|a: int, b: int| 0 <= a < b < pre.len() implies !same_event(pre[a], pre[b]) by {
                assert(pre[a] == s[a] && pre[b] == s[b]);
            }
        }
        lemma_filter_no_repeats(pre, f);
        if f(s.last()) {
            let fp = pre.filter(f);
            assert forall|a: int| 0 <= a < fp.len() implies !same_event(fp[a], s.last()) by {
                pre.lemma_filter_contains_rev(f, fp[a]);
                assert(fp.contains(fp[a]));
                let i = choose|i: int| 0 <= i < pre.len() && pre[i] == fp[a];
                assert(s[i] == fp[a]);
            }
            assert forall|a: int, b: int| 0 <= a < b < fp.push(s.last()).len() implies !same_event(
                fp.push(s.last())[a],
                fp.push(s.last())[b],
            ) by {
                if b == fp.len() {
                    assert(fp.push(s.last())[a] == fp[a]);
                }
            }
        }
    }
}

/// A check never raises an alert twice for the same process: if no alert was
/// active twice for one process before, none is after.
pub proof fn lemma_check_never_repeats(
    active: Seq<ActiveView>,
    tracking: Seq<Track>,
    alerts: Seq<Alert>,
    cpu_texts: Seq<Seq<char>>,
    prev: Seq<(u32, Seq<char>)>,
    ps: Seq<ProcessView>,
    now: Moment,
)
    requires
        no_repeats(active),
    ensures
        no_repeats(checked_active(active, tracking, alerts, cpu_texts, prev, ps, now)),
{
    lemma_deaths_no_repeats(active, alerts, prev, ps, now);
    lemma_thresholds_no_repeats(
        (deaths(active, alerts, prev, ps, now), tracking),
        alerts,
        cpu_texts,
        ps,
        now,
    );
    lemma_filter_no_repeats(
        thresholds((deaths(active, alerts, prev, ps, now), tracking), alerts, cpu_texts, ps, now).0,
        recent(now),
    );
}

/// After a check at `now`, every active alert was raised less than five
/// minutes before `now`.
pub proof fn lemma_check_expires_old_alerts(
    active: Seq<ActiveView>,
    tracking: Seq<Track>,
    alerts: Seq<Alert>,
    cpu_texts: Seq<Seq<char>>,
    prev: Seq<(u32, Seq<char>)>,
    ps: Seq<ProcessView>,
    now: Moment,
    k: int,
)
    requires
        0 <= k < checked_active(active, tracking, alerts, cpu_texts, prev, ps, now).len(),
    ensures
        later_than_before(
            checked_active(active, tracking, alerts, cpu_texts, prev, ps, now)[k].triggered_at,
            now,
            300,
        ),
{
    let s = thresholds((deaths(active, alerts, prev, ps, now), tracking), alerts, cpu_texts, ps, now).0;
    s.lemma_filter_pred(recent(now), k);
}

/// The alert `x` was raised at `now` by an enabled alert of `alerts` that
/// can fire (an I/O alert never does).
pub open spec fn raised_now_by(x: ActiveView, alerts: Seq<Alert>, now: Moment) -> bool {
    &&& x.triggered_at == now
    &&& exists|j: int|
        0 <= j < alerts.len() && (#[trigger] alerts[j]).name@ == x.alert_name && alerts[j].enabled
            && !(alerts[j].condition is IoGreaterThan)
}

/// Each alert of `s` was in `before`, or was raised at `now` by one of `alerts`.
spec fn explained(s: Seq<ActiveView>, before: Seq<ActiveView>, alerts: Seq<Alert>, now: Moment) -> bool {
    forall|k: int| 0 <= k < s.len() ==> before.contains(#[trigger] s[k]) || raised_now_by(s[k], alerts, now)
}

/// `a` is a prefix of `all`.
spec fn prefix_of(a: Seq<Alert>, all: Seq<Alert>) -> bool {
    a.len() <= all.len() && forall|m: int| 0 <= m < a.len() ==> a[m] == all[m]
}

proof fn lemma_explained_push(s: Seq<ActiveView>, before: Seq<ActiveView>, alerts: Seq<Alert>, now: Moment, x: ActiveView)
    requires
        explained(s, before, alerts, now),
        raised_now_by(x, alerts, now),
    ensures
        explained(s.push(x), before, alerts, now),
{
    assert forall|k: int| 0 <= k < s.push(x).len() implies before.contains(#[trigger] s.push(x)[k])
        || raised_now_by(s.push(x)[k], alerts, now) by {
        if k < s.len() {
            assert(s.push(x)[k] == s[k]);
        }
    }
}

proof fn lemma_deaths_for_explained(
    active: Seq<ActiveView>,
    alert: Alert,
    prev: Seq<(u32, Seq<char>)>,
    ps: Seq<ProcessView>,
    now: Moment,
    before: Seq<ActiveView>,
    all: Seq<Alert>,
    j: int,
)
    requires
        explained(active, before, all, now),
        0 <= j < all.len(),
        all[j] == alert,
    ensures
        explained(deaths_for(active, alert, prev, ps, now), before, all, now),
    decreases prev.len(),
{
    if prev.len() > 0 {
        lemma_deaths_for_explained(active, alert, prev.drop_last(), ps, now, before, all, j);
        let a0 = deaths_for(active, alert, prev.drop_last(), ps, now);
        let gone = prev.last();
        if let AlertCondition::ProcessDied { pattern } = alert.condition {
            if alert.enabled && !alive(ps, gone.0) && name_matches(pattern@, gone.1) && !has_active(
                a0,
                alert.name@,
                gone.0,
            ) {
                let x = ActiveView {
                    alert_name: alert.name@,
                    triggered_at: now,
                    process_pid: Some(gone.0),
                    process_name: Some(gone.1),
                    message: death_message(gone.1, gone.0),
                };
                assert(all[j].name@ == x.alert_name);
                lemma_explained_push(a0, before, all, now, x);
            }
        }
    }
}

proof fn lemma_deaths_explained(
    active: Seq<ActiveView>,
    alerts: Seq<Alert>,
    prev: Seq<(u32, Seq<char>)>,
    ps: Seq<ProcessView>,
    now: Moment,
    all: Seq<Alert>,
)
    requires
        prefix_of(alerts, all),
    ensures
        explained(deaths(active, alerts, prev, ps, now), active, all, now),
    decreases alerts.len(),
{
    if alerts.len() == 0 {
        assert forall|k: int| 0 <= k < active.len() implies active.contains(#[trigger] active[k])
            || raised_now_by(active[k], all, now) by {
            assert(active[k] == active[k]);
        }
    } else {
        lemma_deaths_explained(active, alerts.drop_last(), prev, ps, now, all);
        lemma_deaths_for_explained(
            deaths(active, alerts.drop_last(), prev, ps, now),
            alerts.last(),
            prev,
            ps,
            now,
            active,
            all,
            alerts.len() - 1,
        );
    }
}

proof fn lemma_thresholds_for_explained(
    state: (Seq<ActiveView>, Seq<Track>),
    alert: Alert,
    ps: Seq<ProcessView>,
    now: Moment,
    cpu_text: Seq<char>,
    before: Seq<ActiveView>,
    all: Seq<Alert>,
    j: int,
)
    requires
        explained(state.0, before, all, now),
        0 <= j < all.len(),
        all[j] == alert,
    ensures
        explained(thresholds_for(state, alert, ps, now, cpu_text).0, before, all, now),
    decreases ps.len(),
{
    if ps.len() > 0 {
        lemma_thresholds_for_explained(state, alert, ps.drop_last(), now, cpu_text, before, all, j);
        let st = thresholds_for(state, alert, ps.drop_last(), now, cpu_text);
        let p = ps.last();
        let key = track_key(alert.name@, p.pid);
        if alert.enabled && targets(alert.target, p) {
            if let Some((holds, duration)) = threshold_of(alert.condition, p) {
                if holds && waited(now, Some(held_since(st.1, key, now)), duration as int)
                    && !has_active(st.0, alert.name@, p.pid) {
                    let x = ActiveView {
                        alert_name: alert.name@,
                        triggered_at: now,
                        process_pid: Some(p.pid),
                        process_name: Some(p.name),
                        message: threshold_message(alert, p, cpu_text),
                    };
                    assert(all[j].name@ == x.alert_name);
                    lemma_explained_push(st.0, before, all, now, x);
                }
            }
        }
    }
}

proof fn lemma_thresholds_explained(
    state: (Seq<ActiveView>, Seq<Track>),
    alerts: Seq<Alert>,
    cpu_texts: Seq<Seq<char>>,
    ps: Seq<ProcessView>,
    now: Moment,
    before: Seq<ActiveView>,
    all: Seq<Alert>,
)
    requires
        explained(state.0, before, all, now),
        prefix_of(alerts, all),
    ensures
        explained(thresholds(state, alerts, cpu_texts, ps, now).0, before, all, now),
    decreases alerts.len(),
{
    if alerts.len() > 0 {
        lemma_thresholds_explained(state, alerts.drop_last(), cpu_texts, ps, now, before, all);
        lemma_thresholds_for_explained(
            thresholds(state, alerts.drop_last(), cpu_texts, ps, now),
            alerts.last(),
            ps,
            now,
            cpu_texts[alerts.len() - 1],
            before,
            all,
            alerts.len() - 1,
        );
    }
}

/// Before the expiry filter, every alert of a check at `now` was active
/// before it or was raised at `now` by one of `alerts`.
proof fn lemma_unfiltered_explained(
    active: Seq<ActiveView>,
    tracking: Seq<Track>,
    alerts: Seq<Alert>,
    cpu_texts: Seq<Seq<char>>,
    prev: Seq<(u32, Seq<char>)>,
    ps: Seq<ProcessView>,
    now: Moment,
)
    ensures
        explained(
            thresholds((deaths(active, alerts, prev, ps, now), tracking), alerts, cpu_texts, ps, now).0,
            active,
            alerts,
            now,
        ),
{
    lemma_deaths_explained(active, alerts, prev, ps, now, alerts);
    lemma_thresholds_explained(
        (deaths(active, alerts, prev, ps, now), tracking),
        alerts,
        cpu_texts,
        ps,
        now,
        active,
        alerts,
    );
}

/// Law: a check at `now` adds only alerts raised at `now`, each named after
/// an enabled alert that can fire (disabled and I/O alerts add none); every
/// other alert active after the check was active before it.
pub proof fn lemma_check_raises_enabled_alerts_now(
    active: Seq<ActiveView>,
    tracking: Seq<Track>,
    alerts: Seq<Alert>,
    cpu_texts: Seq<Seq<char>>,
    prev: Seq<(u32, Seq<char>)>,
    ps: Seq<ProcessView>,
    now: Moment,
    k: int,
)
    requires
        0 <= k < checked_active(active, tracking, alerts, cpu_texts, prev, ps, now).len(),
    ensures
        active.contains(checked_active(active, tracking, alerts, cpu_texts, prev, ps, now)[k])
            || raised_now_by(checked_active(active, tracking, alerts, cpu_texts, prev, ps, now)[k], alerts, now),
{
    let s = thresholds((deaths(active, alerts, prev, ps, now), tracking), alerts, cpu_texts, ps, now).0;
    let x = s.filter(recent(now))[k];
    lemma_unfiltered_explained(active, tracking, alerts, cpu_texts, prev, ps, now);
    assert(s.filter(recent(now)).contains(x));
    s.lemma_filter_contains_rev(recent(now), x);
    let i = choose|i: int| 0 <= i < s.len() && s[i] == x;
    assert(s[i] == x);
}

/// No condition is tracked as holding since later than `now`.
spec fn tracks_not_after(tr: Seq<Track>, now: Moment) -> bool {
    forall|m: int| 0 <= m < tr.len() ==> (#[trigger] tr[m]).1.total() <= now.total()
}

/// `b` starts with `a`.
spec fn extends(b: Seq<ActiveView>, a: Seq<ActiveView>) -> bool {
    a.len() <= b.len() && forall|k: int| 0 <= k < a.len() ==> b[k] == a[k]
}

proof fn lemma_extends_has_active(a: Seq<ActiveView>, b: Seq<ActiveView>, name: Seq<char>, pid: u32)
    requires
        extends(b, a),
        has_active(a, name, pid),
    ensures
        has_active(b, name, pid),
{
    let k = choose|k: int|
        0 <= k < a.len() && a[k].alert_name == name && a[k].process_pid == Some(pid);
    assert(b[k] == a[k]);
}

proof fn lemma_threshold_step_keeps(
    st: (Seq<ActiveView>, Seq<Track>),
    alert: Alert,
    p: ProcessView,
    now: Moment,
    cpu_text: Seq<char>,
)
    requires
        tracks_not_after(st.1, now),
    ensures
        extends(threshold_step(st, alert, p, now, cpu_text).0, st.0),
        tracks_not_after(threshold_step(st, alert, p, now, cpu_text).1, now),
{
    let key = track_key(alert.name@, p.pid);
    let tr = st.1;
    lemma_track_index(tr, key);
    let t2 = touch(tr, key, now);
    assert(tracks_not_after(t2, now)) by {
        assert forall|m: int| 0 <= m < t2.len() implies (#[trigger] t2[m]).1.total() <= now.total() by {
            match track_index(tr, key) {
                Some(i) => {
                    if m != i {
                        assert(t2[m] == tr[m]);
                    } else {
                        assert(tr[i] == tr[m]);
                    }
                },
                None => {
                    if m < tr.len() {
                        assert(t2[m] == tr[m]);
                    }
                },
            }
        }
    }
    let t3 = tr.filter(other_track(key));
    assert(tracks_not_after(t3, now)) by {
        assert forall|m: int| 0 <= m < t3.len() implies (#[trigger] t3[m]).1.total() <= now.total() by {
            let x = t3[m];
            assert(t3.contains(x));
            tr.lemma_filter_contains_rev(other_track(key), x);
            let i = choose|i: int| 0 <= i < tr.len() && tr[i] == x;
            assert(tr[i] == x);
        }
    }
}

proof fn lemma_thresholds_for_keeps(
    state: (Seq<ActiveView>, Seq<Track>),
    alert: Alert,
    ps: Seq<ProcessView>,
    n: int,
    now: Moment,
    cpu_text: Seq<char>,
)
    requires
        tracks_not_after(state.1, now),
        0 <= n <= ps.len(),
    ensures
        extends(
            thresholds_for(state, alert, ps, now, cpu_text).0,
            thresholds_for(state, alert, ps.take(n), now, cpu_text).0,
        ),
        tracks_not_after(thresholds_for(state, alert, ps, now, cpu_text).1, now),
    decreases ps.len(),
{
    if ps.len() > 0 {
        let k = if n < ps.len() { n } else { ps.len() - 1 };
        lemma_thresholds_for_keeps(state, alert, ps.drop_last(), k, now, cpu_text);
        let st = thresholds_for(state, alert, ps.drop_last(), now, cpu_text);
        lemma_threshold_step_keeps(st, alert, ps.last(), now, cpu_text);
        if n < ps.len() {
            assert(ps.drop_last().take(n) =~= ps.take(n));
        } else {
            assert(ps.take(n) =~= ps);
        }
    } else {
        assert(ps.take(n) =~= ps);
    }
}

proof fn lemma_thresholds_keeps(
    state: (Seq<ActiveView>, Seq<Track>),
    alerts: Seq<Alert>,
    cpu_texts: Seq<Seq<char>>,
    ps: Seq<ProcessView>,
    now: Moment,
    j: int,
)
    requires
        tracks_not_after(state.1, now),
        0 <= j < alerts.len(),
    ensures
        extends(
            thresholds(state, alerts, cpu_texts, ps, now).0,
            thresholds_for(thresholds(state, alerts.take(j), cpu_texts, ps, now), alerts[j], ps, now, cpu_texts[j]).0,
        ),
        tracks_not_after(thresholds(state, alerts, cpu_texts, ps, now).1, now),
        tracks_not_after(thresholds(state, alerts.take(j), cpu_texts, ps, now).1, now),
    decreases alerts.len(),
{
    let init = alerts.drop_last();
    if j == alerts.len() - 1 {
        assert(alerts.take(j) =~= init);
        if init.len() > 0 {
            lemma_thresholds_keeps(state, init, cpu_texts, ps, now, init.len() - 1);
        }
        lemma_thresholds_for_keeps(thresholds(state, init, cpu_texts, ps, now), alerts[j], ps, ps.len() as int, now, cpu_texts[j]);
        assert(ps.take(ps.len() as int) =~= ps);
    } else {
        lemma_thresholds_keeps(state, init, cpu_texts, ps, now, j);
        assert(init.take(j) =~= alerts.take(j));
        assert(init[j] == alerts[j]);
        let mid = thresholds(state, init, cpu_texts, ps, now);
        lemma_thresholds_for_keeps(mid, alerts.last(), ps, 0, now, cpu_texts[alerts.len() - 1]);
        assert(ps.take(0) =~= Seq::<ProcessView>::empty());
        let a = thresholds_for(thresholds(state, alerts.take(j), cpu_texts, ps, now), alerts[j], ps, now, cpu_texts[j]).0;
        let c = thresholds(state, alerts, cpu_texts, ps, now).0;
        assert(extends(c, mid.0));
        assert(extends(mid.0, a));
        assert forall|k: int| 0 <= k < a.len() implies c[k] == a[k] by {
            assert(mid.0[k] == a[k]);
        }
    }
}

/// Law: an enabled CPU alert with no duration fires for every process it
/// watches whose CPU share is above its threshold: after the check such an
/// alert is active for the process (a new one raised at `now`, unless one
/// was active already). This holds when no condition is tracked as holding
/// since after `now`, and no active alert for that process was raised five
/// minutes or more before `now` (this check expires such an alert instead).
pub proof fn lemma_cpu_alert_without_duration_fires(
    active: Seq<ActiveView>,
    tracking: Seq<Track>,
    alerts: Seq<Alert>,
    cpu_texts: Seq<Seq<char>>,
    prev: Seq<(u32, Seq<char>)>,
    ps: Seq<ProcessView>,
    now: Moment,
    j: int,
    i: int,
)
    requires
        0 <= j < alerts.len(),
        0 <= i < ps.len(),
        alerts[j].enabled,
        alerts[j].condition matches AlertCondition::CpuGreaterThan { threshold_bits, duration_secs }
            && duration_secs == 0 && f32_less(threshold_bits, ps[i].cpu_usage_bits),
        targets(alerts[j].target, ps[i]),
        forall|m: int| 0 <= m < tracking.len() ==> (#[trigger] tracking[m]).1.total() <= now.total(),
        forall|k: int|
            0 <= k < active.len() && (#[trigger] active[k]).alert_name == alerts[j].name@
                && active[k].process_pid == Some(ps[i].pid) ==> later_than_before(
                active[k].triggered_at,
                now,
                300,
            ),
    ensures
        has_active(checked_active(active, tracking, alerts, cpu_texts, prev, ps, now), alerts[j].name@, ps[i].pid),
{
    let alert = alerts[j];
    let p = ps[i];
    let s0 = (deaths(active, alerts, prev, ps, now), tracking);
    assert(tracks_not_after(s0.1, now));
    lemma_thresholds_keeps(s0, alerts, cpu_texts, ps, now, j);
    let sj = thresholds(s0, alerts.take(j), cpu_texts, ps, now);
    lemma_thresholds_for_keeps(sj, alert, ps, i + 1, now, cpu_texts[j]);
    lemma_thresholds_for_keeps(sj, alert, ps.take(i + 1), i, now, cpu_texts[j]);
    lemma_thresholds_for_keeps(sj, alert, ps.take(i), 0, now, cpu_texts[j]);
    assert(ps.take(i + 1).drop_last() =~= ps.take(i));
    assert(ps.take(i + 1).take(i) =~= ps.take(i));
    assert(ps.take(i + 1).last() == p);
    let st = thresholds_for(sj, alert, ps.take(i), now, cpu_texts[j]);
    let after = threshold_step(st, alert, p, now, cpu_texts[j]);
    assert(after == thresholds_for(sj, alert, ps.take(i + 1), now, cpu_texts[j]));
    let key = track_key(alert.name@, p.pid);
    lemma_track_index(st.1, key);
    assert(held_since(st.1, key, now).total() <= now.total()) by {
        if let Some(m) = track_index(st.1, key) {
            assert(st.1[m].1.total() <= now.total());
        }
    }
    assert(has_active(after.0, alert.name@, p.pid)) by {
        if !has_active(st.0, alert.name@, p.pid) {
            let n = st.0.len() as int;
            assert(after.0[n].alert_name == alert.name@);
        }
    }
    let full = thresholds_for(sj, alert, ps, now, cpu_texts[j]);
    lemma_extends_has_active(after.0, full.0, alert.name@, p.pid);
    let big = thresholds(s0, alerts, cpu_texts, ps, now).0;
    lemma_extends_has_active(full.0, big, alert.name@, p.pid);
    let k = choose|k: int|
        0 <= k < big.len() && big[k].alert_name == alert.name@ && big[k].process_pid == Some(p.pid);
    lemma_unfiltered_explained(active, tracking, alerts, cpu_texts, prev, ps, now);
    assert(recent(now)(big[k])) by {
        if active.contains(big[k]) {
            let m = choose|m: int| 0 <= m < active.len() && active[m] == big[k];
            assert(active[m] == big[k]);
        }
    }
    big.lemma_filter_contains(recent(now), k);
    let out = big.filter(recent(now));
    assert(out.contains(big[k]));
    let q = choose|q: int| 0 <= q < out.len() && out[q] == big[k];
    assert(out[q].alert_name == alert.name@ && out[q].process_pid == Some(p.pid));
}

/// No stretch tracked for `key` has lasted `d` seconds by `now`.
spec fn no_long_hold(tr: Seq<Track>, key: Seq<char>, now: Moment, d: nat) -> bool {
    forall|m: int| 0 <= m < tr.len() && (#[trigger] tr[m]).0 == key ==> !waited(now, Some(tr[m].1), d as int)
}

proof fn lemma_push_other(s: Seq<ActiveView>, x: ActiveView, name: Seq<char>, pid: u32)
    requires
        !has_active(s, name, pid),
        x.alert_name != name || x.process_pid != Some(pid),
    ensures
        !has_active(s.push(x), name, pid),
{
    assert forall|k: int| 0 <= k < s.push(x).len() implies !((#[trigger] s.push(x)[k]).alert_name == name
        && s.push(x)[k].process_pid == Some(pid)) by {
        if k < s.len() {
            assert(s.push(x)[k] == s[k]);
        }
    }
}

proof fn lemma_deaths_for_spare(
    active: Seq<ActiveView>,
    alert: Alert,
    prev: Seq<(u32, Seq<char>)>,
    ps: Seq<ProcessView>,
    now: Moment,
    name: Seq<char>,
    pid: u32,
)
    requires
        !has_active(active, name, pid),
        alert.name@ != name || !(alert.condition is ProcessDied),
    ensures
        !has_active(deaths_for(active, alert, prev, ps, now), name, pid),
    decreases prev.len(),
{
    if prev.len() > 0 {
        lemma_deaths_for_spare(active, alert, prev.drop_last(), ps, now, name, pid);
        let a0 = deaths_for(active, alert, prev.drop_last(), ps, now);
        let gone = prev.last();
        if let AlertCondition::ProcessDied { pattern } = alert.condition {
            if alert.enabled && !alive(ps, gone.0) && name_matches(pattern@, gone.1) && !has_active(
                a0,
                alert.name@,
                gone.0,
            ) {
                lemma_push_other(
                    a0,
                    ActiveView {
                        alert_name: alert.name@,
                        triggered_at: now,
                        process_pid: Some(gone.0),
                        process_name: Some(gone.1),
                        message: death_message(gone.1, gone.0),
                    },
                    name,
                    pid,
                );
            }
        }
    }
}

proof fn lemma_deaths_spare(
    active: Seq<ActiveView>,
    alerts: Seq<Alert>,
    prev: Seq<(u32, Seq<char>)>,
    ps: Seq<ProcessView>,
    now: Moment,
    name: Seq<char>,
    pid: u32,
)
    requires
        !has_active(active, name, pid),
        forall|m: int| 0 <= m < alerts.len() ==> (#[trigger] alerts[m]).name@ != name || !(alerts[m].condition is ProcessDied),
    ensures
        !has_active(deaths(active, alerts, prev, ps, now), name, pid),
    decreases alerts.len(),
{
    if alerts.len() > 0 {
        assert forall|m: int| 0 <= m < alerts.drop_last().len() implies (#[trigger] alerts.drop_last()[m]).name@
            != name || !(alerts.drop_last()[m].condition is ProcessDied) by {
            assert(alerts.drop_last()[m] == alerts[m]);
        }
        lemma_deaths_spare(active, alerts.drop_last(), prev, ps, now, name, pid);
        assert(alerts.last() == alerts[alerts.len() - 1]);
        lemma_deaths_for_spare(deaths(active, alerts.drop_last(), prev, ps, now), alerts.last(), prev, ps, now, name, pid);
    }
}

/// How long the condition of a CPU or memory alert must hold.
pub open spec fn hold_duration(c: AlertCondition) -> Option<u64> {
    match c {
        AlertCondition::CpuGreaterThan { duration_secs, .. } => Some(duration_secs),
        AlertCondition::MemoryGreaterThan { duration_secs, .. } => Some(duration_secs),
        _ => None,
    }
}

/// The alert is named otherwise, or is a CPU or memory alert of duration `d`.
spec fn spares(a: Alert, name: Seq<char>, d: nat) -> bool {
    a.name@ != name || (hold_duration(a.condition) matches Some(x) && x == d)
}

proof fn lemma_thresholds_for_spare(
    state: (Seq<ActiveView>, Seq<Track>),
    alert: Alert,
    ps: Seq<ProcessView>,
    now: Moment,
    cpu_text: Seq<char>,
    name: Seq<char>,
    pid: u32,
    d: nat,
)
    requires
        d > 0,
        !has_active(state.0, name, pid),
        no_long_hold(state.1, track_key(name, pid), now, d),
        spares(alert, name, d),
    ensures
        !has_active(thresholds_for(state, alert, ps, now, cpu_text).0, name, pid),
        no_long_hold(thresholds_for(state, alert, ps, now, cpu_text).1, track_key(name, pid), now, d),
    decreases ps.len(),
{
    if ps.len() > 0 {
        lemma_thresholds_for_spare(state, alert, ps.drop_last(), now, cpu_text, name, pid, d);
        let st = thresholds_for(state, alert, ps.drop_last(), now, cpu_text);
        let p = ps.last();
        let key = track_key(alert.name@, p.pid);
        let ours = track_key(name, pid);
        let tr = st.1;
        lemma_track_index(tr, key);
        let t2 = touch(tr, key, now);
        assert(no_long_hold(t2, ours, now, d)) by {
            assert forall|m: int| 0 <= m < t2.len() && (#[trigger] t2[m]).0 == ours implies !waited(
                now,
                Some(t2[m].1),
                d as int,
            ) by {
                match track_index(tr, key) {
                    Some(i) => {
                        if m != i {
                            assert(t2[m] == tr[m]);
                        } else {
                            assert(tr[i].0 == key);
                            assert(tr[m].0 == ours);
                        }
                    },
                    None => {
                        if m < tr.len() {
                            assert(t2[m] == tr[m]);
                        }
                    },
                }
            }
        }
        let t3 = tr.filter(other_track(key));
        assert(no_long_hold(t3, ours, now, d)) by {
            assert forall|m: int| 0 <= m < t3.len() && (#[trigger] t3[m]).0 == ours implies !waited(
                now,
                Some(t3[m].1),
                d as int,
            ) by {
                let x = t3[m];
                assert(t3.contains(x));
                tr.lemma_filter_contains_rev(other_track(key), x);
                let i = choose|i: int| 0 <= i < tr.len() && tr[i] == x;
                assert(tr[i] == x);
            }
        }
        if alert.enabled && targets(alert.target, p) {
            if let Some((holds, duration)) = threshold_of(alert.condition, p) {
                if holds && waited(now, Some(held_since(tr, key, now)), duration as int)
                    && !has_active(st.0, alert.name@, p.pid) {
                    if alert.name@ == name && p.pid == pid {
                        assert(duration == d);
                        assert(key == ours);
                        if let Some(i) = track_index(tr, key) {
                            assert(tr[i].0 == ours);
                        }
                        assert(false);
                    }
                    lemma_push_other(
                        st.0,
                        ActiveView {
                            alert_name: alert.name@,
                            triggered_at: now,
                            process_pid: Some(p.pid),
                            process_name: Some(p.name),
                            message: threshold_message(alert, p, cpu_text),
                        },
                        name,
                        pid,
                    );
                }
            }
        }
    }
}

proof fn lemma_thresholds_spare_tracks(
    state: (Seq<ActiveView>, Seq<Track>),
    alerts: Seq<Alert>,
    cpu_texts: Seq<Seq<char>>,
    ps: Seq<ProcessView>,
    now: Moment,
    name: Seq<char>,
    pid: u32,
    d: nat,
)
    requires
        d > 0,
        !has_active(state.0, name, pid),
        no_long_hold(state.1, track_key(name, pid), now, d),
        forall|m: int| 0 <= m < alerts.len() ==> spares(#[trigger] alerts[m], name, d),
    ensures
        no_long_hold(thresholds(state, alerts, cpu_texts, ps, now).1, track_key(name, pid), now, d),
        !has_active(thresholds(state, alerts, cpu_texts, ps, now).0, name, pid),
    decreases alerts.len(),
{
    if alerts.len() > 0 {
        assert forall|m: int| 0 <= m < alerts.drop_last().len() implies spares(
            #[trigger] alerts.drop_last()[m],
            name,
            d,
        ) by {
            assert(alerts.drop_last()[m] == alerts[m]);
        }
        lemma_thresholds_spare_tracks(state, alerts.drop_last(), cpu_texts, ps, now, name, pid, d);
        assert(alerts.last() == alerts[alerts.len() - 1]);
        lemma_thresholds_for_spare(
            thresholds(state, alerts.drop_last(), cpu_texts, ps, now),
            alerts.last(),
            ps,
            now,
            cpu_texts[alerts.len() - 1],
            name,
            pid,
            d,
        );
    }
}

/// Law: a CPU or memory alert with a positive duration `d` is raised for a
/// process only once its condition has held on consecutive checks since at
/// least `d` seconds before `now`. When no stretch tracked for the alert and
/// the process has lasted that long (a first check tracks none), a check
/// leaves the alert inactive for the process, provided no other alert has
/// its name and it was not active for the process before.
pub proof fn lemma_threshold_alert_waits_for_its_duration(
    active: Seq<ActiveView>,
    tracking: Seq<Track>,
    alerts: Seq<Alert>,
    cpu_texts: Seq<Seq<char>>,
    prev: Seq<(u32, Seq<char>)>,
    ps: Seq<ProcessView>,
    now: Moment,
    j: int,
    pid: u32,
)
    requires
        0 <= j < alerts.len(),
        hold_duration(alerts[j].condition) matches Some(d) && d > 0,
        forall|m: int| 0 <= m < alerts.len() && m != j ==> (#[trigger] alerts[m]).name@ != alerts[j].name@,
        !has_active(active, alerts[j].name@, pid),
        forall|m: int|
            0 <= m < tracking.len() && (#[trigger] tracking[m]).0 == track_key(alerts[j].name@, pid) ==> !waited(
                now,
                Some(tracking[m].1),
                hold_duration(alerts[j].condition)->0 as int,
            ),
    ensures
        !has_active(checked_active(active, tracking, alerts, cpu_texts, prev, ps, now), alerts[j].name@, pid),
{
    let name = alerts[j].name@;
    let d = hold_duration(alerts[j].condition)->0 as nat;
    assert forall|m: int| 0 <= m < alerts.len() implies (#[trigger] alerts[m]).name@ != name || !(
    alerts[m].condition is ProcessDied) by {
        if m != j {
        }
    }
    assert forall|m: int| 0 <= m < alerts.len() implies spares(#[trigger] alerts[m], name, d) by {
        if m != j {
        }
    }
    lemma_deaths_spare(active, alerts, prev, ps, now, name, pid);
    let s0 = (deaths(active, alerts, prev, ps, now), tracking);
    lemma_thresholds_spare_tracks(s0, alerts, cpu_texts, ps, now, name, pid, d);
    let big = thresholds(s0, alerts, cpu_texts, ps, now).0;
    let out = big.filter(recent(now));
    if has_active(out, name, pid) {
        let q = choose|q: int| 0 <= q < out.len() && out[q].alert_name == name && out[q].process_pid == Some(pid);
        let x = out[q];
        assert(out.contains(x));
        big.lemma_filter_contains_rev(recent(now), x);
        let i = choose|i: int| 0 <= i < big.len() && big[i] == x;
        assert(big[i] == x);
    }
}

// ---------------------------------------------------------------------------
// Ready-made alerts
// ---------------------------------------------------------------------------

/// The bit pattern of the `f32` 5.0 (percent).
pub const FIVE_PERCENT_BITS: u32 = 0x40a0_0000;

/// The alert that a key of the alert list creates, numbered after the
/// `count` alerts there are: `c` a CPU alert (above 5% for 5 s), `m` a
/// memory alert (above 100 MB for 5 s), `d` an alert when a process named
/// like `sleep` dies; no alert for any other key.
pub open spec fn preset_of(kind: char, count: nat) -> Option<(Seq<char>, AlertCondition, AlertTarget)> {
    let n = decimal(count + 1);
    if kind == 'c' {
        Some(("High CPU Alert "@ + n, AlertCondition::CpuGreaterThan { threshold_bits: FIVE_PERCENT_BITS, duration_secs: 5 }, AlertTarget::All))
    } else if kind == 'm' {
        Some(("High Memory Alert "@ + n, AlertCondition::MemoryGreaterThan { threshold_mb: 100, duration_secs: 5 }, AlertTarget::All))
    } else {
        None
    }
}

/// The ready-made alert of key `kind` (see `preset_of`; `d` gives the
/// process-death alert on `sleep`).
pub fn preset_alert(kind: char, count: usize) -> (res: Option<Alert>)
    requires
        count < usize::MAX,
    ensures
        kind == 'c' || kind == 'm' ==> (res matches Some(a) && a.enabled && preset_of(kind, count as nat)
            == Some((a.name@, a.condition, a.target))),
        kind == 'd' ==> (res matches Some(a) && a.enabled && a.name@ == "Sleep Death Alert "@ + decimal(
            count as nat + 1,
        ) && (a.condition matches AlertCondition::ProcessDied { pattern } && pattern@ == "sleep"@) && (
        a.target matches AlertTarget::Pattern(p) && p@ == "sleep"@)),
        !(kind == 'c' || kind == 'm' || kind == 'd') ==> res is None,
{
    let d = decimal_string(count as u64 + 1);
    if kind == 'c' {
        let mut name = owned("High CPU Alert ");
        push_str(&mut name, d.as_str());
        Some(Alert {
            name,
            condition: AlertCondition::CpuGreaterThan { threshold_bits: FIVE_PERCENT_BITS, duration_secs: 5 },
            target: AlertTarget::All,
            enabled: true,
        })
    } else if kind == 'm' {
        let mut name = owned("High Memory Alert ");
        push_str(&mut name, d.as_str());
        Some(Alert {
            name,
            condition: AlertCondition::MemoryGreaterThan { threshold_mb: 100, duration_secs: 5 },
            target: AlertTarget::All,
            enabled: true,
        })
    } else if kind == 'd' {
        let mut name = owned("Sleep Death Alert ");
        push_str(&mut name, d.as_str());
        Some(Alert {
            name,
            condition: AlertCondition::ProcessDied { pattern: owned("sleep") },
            target: AlertTarget::Pattern(owned("sleep")),
            enabled: true,
        })
    } else {
        None
    }
}

} // verus!
