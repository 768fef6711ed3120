//! Scheduled jobs: when each task is due, what running it records, and the
//! text form in which a schedule is saved.
//!
//! Time is read from the system clock in one place (`clock_now`); every
//! decision is a verified function of the instant it is given.

use vstd::prelude::*;
use vstd::arithmetic::div_mod::lemma_fundamental_div_mod_converse;
use crate::text::{
    chars_of, decimal, decimal_string, lemma_parse_decimal, owned, parse_u64_range, parse_unsigned,
    push_str, range_eq, starts_with, string_of, word_bounds, words,
};
use crate::paths::{join, join_path};

verus! {

// ---------------------------------------------------------------------------
// Instants
// ---------------------------------------------------------------------------

/// An instant of the system clock, at or after the Unix epoch, to the
/// nanosecond. Like a `SystemTime` on Linux, its seconds fit in an `i64`.
#[derive(Clone, Copy, Debug, PartialEq, Eq, Structural)]
pub struct Moment {
    secs: u64,
    nanos: u32,
}

/// The largest number of seconds a clock reading can hold (`i64::MAX`).
pub const MAX_CLOCK_SECS: u64 = 0x7fff_ffff_ffff_ffff;

impl Moment {
    #[verifier::type_invariant]
    closed spec fn valid(self) -> bool {
        self.nanos < 1_000_000_000 && self.secs <= MAX_CLOCK_SECS
    }

    /// Nanoseconds since the epoch.
    pub closed spec fn total(self) -> int {
        self.secs * 1_000_000_000 + self.nanos
    }

    /// Whole seconds since the epoch.
    pub closed spec fn whole_secs(self) -> nat {
        self.secs as nat
    }

    /// This instant moved `d` seconds later, when the clock can still hold it
    /// (what `SystemTime::checked_add` gives).
    pub closed spec fn plus_secs(self, d: nat) -> Option<Moment> {
        if self.secs + d <= MAX_CLOCK_SECS {
            Some(Moment { secs: (self.secs + d) as u64, nanos: self.nanos })
        } else {
            None
        }
    }

    /// The instant `secs` whole seconds after the epoch
    /// (`UNIX_EPOCH + Duration::from_secs(secs)`).
    pub fn from_secs(secs: u64) -> (m: Moment)
        requires
            secs <= MAX_CLOCK_SECS,
        ensures
            m.whole_secs() == secs,
            m.total() == secs * 1_000_000_000,
    {
        Moment { secs, nanos: 0 }
    }

    /// Whole seconds since the epoch.
    pub fn as_secs(&self) -> (s: u64)
        ensures
            s == self.whole_secs(),
    {
        self.secs
    }

    /// The nanoseconds past the last whole second.
    pub fn subsec_nanos(&self) -> (n: u32)
        ensures
            n == self.total() - self.whole_secs() * 1_000_000_000,
            n < 1_000_000_000,
    {
        proof {
            use_type_invariant(self);
        }
        self.nanos
    }
}

/// Reads the system clock: `SystemTime::now()`, taken as the time since the
/// Unix epoch (a clock set before the epoch reads as the epoch itself, as
/// `duration_since(..).unwrap_or_default()` gives). Nothing is stated of the
/// value read: it depends on the machine and on the moment of the call. That
/// it is a valid `Moment` rests on `Duration::subsec_nanos` staying below a
/// billion and on Linux keeping the seconds of a `SystemTime` in an `i64`.
#[verifier::external_body]
pub(crate) fn clock_now() -> Moment {
    let d = std::time::SystemTime::now().duration_since(std::time::UNIX_EPOCH).unwrap_or_default();
    Moment { secs: d.as_secs(), nanos: d.subsec_nanos() }
}

/// Whole seconds from `earlier` to `later`
/// (`later.duration_since(earlier).as_secs()`), when `later` is not before `earlier`.
pub open spec fn elapsed_secs(later: Moment, earlier: Moment) -> int {
    (later.total() - earlier.total()) / 1_000_000_000
}

/// At least `secs` whole seconds have passed since the last run, or there was
/// none. A last run later than `now` never counts as long enough ago.
pub open spec fn waited(now: Moment, last: Option<Moment>, secs: int) -> bool {
    match last {
        None => true,
        Some(l) => l.total() <= now.total() && elapsed_secs(now, l) >= secs,
    }
}

/// The whole seconds from `earlier` to `later`, or `None` when `later` is earlier.
fn secs_since(later: Moment, earlier: Moment) -> (res: Option<u64>)
    ensures
        res is Some <==> earlier.total() <= later.total(),
        res matches Some(s) ==> s == elapsed_secs(later, earlier),
{
    proof {
        use_type_invariant(&later);
        use_type_invariant(&earlier);
    }
    if later.secs > earlier.secs || (later.secs == earlier.secs && later.nanos >= earlier.nanos) {
        if later.nanos >= earlier.nanos {
            let s = later.secs - earlier.secs;
            proof {
                lemma_fundamental_div_mod_converse(
                    later.total() - earlier.total(),
                    1_000_000_000,
                    s as int,
                    later.nanos - earlier.nanos,
                );
            }
            Some(s)
        } else {
            let s = later.secs - earlier.secs - 1;
            proof {
                lemma_fundamental_div_mod_converse(
                    later.total() - earlier.total(),
                    1_000_000_000,
                    s as int,
                    later.nanos + 1_000_000_000 - earlier.nanos,
                );
            }
            Some(s)
        }
    } else {
        None
    }
}

pub(crate) fn has_waited(now: Moment, last: Option<Moment>, secs: u64) -> (res: bool)
    ensures
        res == waited(now, last, secs as int),
{
    match last {
        None => true,
        Some(l) => match secs_since(now, l) {
            Some(e) => e >= secs,
            None => false,
        },
    }
}

/// At least `ms` milliseconds have passed from `earlier` to `now`; never so
/// when `now` is before `earlier` (`Instant::duration_since` saturates).
pub open spec fn waited_ms(now: Moment, earlier: Moment, ms: nat) -> bool {
    now.total() - earlier.total() >= ms * 1_000_000
}

fn nanos_of(m: Moment) -> (res: u128)
    ensures
        res == m.total(),
{
    proof {
        use_type_invariant(&m);
        assert((m.secs as u128) * 1_000_000_000 <= 0x7fff_ffff_ffff_ffffu128 * 1_000_000_000) by (nonlinear_arith)
            requires
                m.secs <= 0x7fff_ffff_ffff_ffffu64,
        ;
    }
    (m.secs as u128) * 1_000_000_000 + m.nanos as u128
}

pub(crate) fn has_waited_ms(now: Moment, earlier: Moment, ms: u64) -> (res: bool)
    ensures
        res == waited_ms(now, earlier, ms as nat),
{
    let a = nanos_of(now);
    let b = nanos_of(earlier);
    let need: u128 = (ms as u128) * 1_000_000;
    if a >= b {
        a - b >= need
    } else {
        false
    }
}

/// `at` is not later than `now`.
fn reached(now: Moment, at: Moment) -> (res: bool)
    ensures
        res == (at.total() <= now.total()),
{
    proof {
        use_type_invariant(&now);
        use_type_invariant(&at);
    }
    now.secs > at.secs || (now.secs == at.secs && now.nanos >= at.nanos)
}

/// `at` is later than `secs` seconds before `now`.
pub open spec fn later_than_before(at: Moment, now: Moment, secs: nat) -> bool {
    at.total() + secs * 1_000_000_000 > now.total()
}

pub(crate) fn is_later_than_before(at: Moment, now: Moment, secs: u64) -> (res: bool)
    ensures
        res == later_than_before(at, now, secs as nat),
{
    proof {
        use_type_invariant(&at);
        use_type_invariant(&now);
    }
    let a: u128 = at.secs as u128 + secs as u128;
    let n: u128 = now.secs as u128;
    assert(at.total() + secs * 1_000_000_000 == (a as int) * 1_000_000_000 + at.nanos);
    a > n || (a == n && at.nanos > now.nanos)
}

fn checked_plus(now: Moment, d: u64) -> (res: Option<Moment>)
    ensures
        res == now.plus_secs(d as nat),
{
    proof {
        use_type_invariant(&now);
    }
    if d <= MAX_CLOCK_SECS - now.secs {
        Some(Moment { secs: now.secs + d, nanos: now.nanos })
    } else {
        None
    }
}

// ---------------------------------------------------------------------------
// Tasks
// ---------------------------------------------------------------------------

/// When a task runs.
#[derive(Clone, Debug)]
pub enum ScheduleType {
    /// A cron expression such as `0 * * * *`; its minute and hour fields are read.
    Cron(String),
    /// Every so many seconds.
    Interval(u64),
    /// Once, at the given instant.
    Once(Moment),
}

/// What a task does when it runs. Performing it is the caller's work.
#[derive(Clone, Debug)]
pub enum ScheduleAction {
    RestartProcess { pattern: String },
    StartProcess { program: String, args: Vec<String> },
    /// `cpu_threshold_bits` is the bit pattern of an `f32` percentage
    /// (`f32::to_bits`); `action` is `kill`, `stop` or `lower_priority`.
    CleanupIdle {
        cpu_threshold_bits: u32,
        memory_threshold: u64,
        duration_seconds: u64,
        action: String,
    },
    ApplyRule { rule: String },
    KillProcess { pid: u32 },
    StopProcess { pid: u32 },
    ContinueProcess { pid: u32 },
    ReniceProcess { pid: u32, nice: i32 },
}

#[derive(Clone, Debug)]
pub struct ScheduledTask {
    pub name: String,
    pub schedule: ScheduleType,
    pub action: ScheduleAction,
    pub enabled: bool,
    pub last_run: Option<Moment>,
    pub next_run: Option<Moment>,
}

impl ScheduledTask {
    /// An enabled task that has never run.
    pub fn new(name: String, schedule: ScheduleType, action: ScheduleAction) -> (t: Self)
        ensures
            t.name == name,
            t.schedule == schedule,
            t.action == action,
            t.enabled,
            t.last_run is None,
            t.next_run is None,
    {
        ScheduledTask { name, schedule, action, enabled: true, last_run: None, next_run: None }
    }
}

/// The minute of the hour (UTC) at `now`.
pub open spec fn minute_of(now: Moment) -> nat {
    (now.whole_secs() / 60) % 60
}

/// The hour of the day (UTC) at `now`.
pub open spec fn hour_of(now: Moment) -> nat {
    (now.whole_secs() / 3600) % 24
}

/// A cron field matches `current` when it is `*` or a number equal to `current`.
pub open spec fn field_matches(field: Seq<char>, current: nat) -> bool {
    field == seq!['*'] || parse_unsigned(field, u64::MAX as nat) == Some(current)
}

/// A cron task is due when the minute and hour fields of its expression match
/// the current minute and hour and a minute has passed since its last run. An
/// expression of fewer than five fields counts as "every minute".
pub open spec fn cron_due(expr: Seq<char>, now: Moment, last: Option<Moment>) -> bool {
    let f = words(expr);
    if f.len() >= 5 {
        field_matches(f[0], minute_of(now)) && field_matches(f[1], hour_of(now)) && waited(
            now,
            last,
            60,
        )
    } else {
        waited(now, last, 60)
    }
}

/// Whether `task` is due at `now`: an enabled interval task once its interval
/// has passed since its last run (or at once, if it never ran); an enabled
/// one-off task once its time has come, if it never ran; an enabled cron task
/// as `cron_due` says.
pub open spec fn is_due(task: ScheduledTask, now: Moment) -> bool {
    task.enabled && match task.schedule {
        ScheduleType::Interval(s) => waited(now, task.last_run, s as int),
        ScheduleType::Once(at) => at.total() <= now.total() && task.last_run is None,
        ScheduleType::Cron(e) => cron_due(e@, now, task.last_run),
    }
}

/// When a task that ran at `now` is expected next: an interval later, a
/// minute later for a cron task, never for a one-off task.
pub open spec fn next_run_after(schedule: ScheduleType, now: Moment) -> Option<Moment> {
    match schedule {
        ScheduleType::Interval(s) => now.plus_secs(s as nat),
        ScheduleType::Once(_) => None,
        ScheduleType::Cron(_) => now.plus_secs(60),
    }
}

/// `task` as it stands after running at `now`.
pub open spec fn ran_at(task: ScheduledTask, now: Moment) -> ScheduledTask {
    ScheduledTask { last_run: Some(now), next_run: next_run_after(task.schedule, now), ..task }
}

/// The tasks after a check at `now`: those due have run, the others are unchanged.
pub open spec fn after_check(tasks: Seq<ScheduledTask>, now: Moment) -> Seq<ScheduledTask> {
    tasks.map_values(|t: ScheduledTask| if is_due(t, now) { ran_at(t, now) } else { t })
}

/// The positions of the tasks due at `now`, in increasing order.
pub open spec fn due_indices(tasks: Seq<ScheduledTask>, now: Moment) -> Seq<usize>
    decreases tasks.len(),
{
    if tasks.len() == 0 {
        seq![]
    } else {
        let rest = due_indices(tasks.drop_last(), now);
        if is_due(tasks.last(), now) {
            rest.push((tasks.len() - 1) as usize)
        } else {
            rest
        }
    }
}

/// Whether the cron field `v[lo..hi]` matches `current`.
fn field_matches_at(v: &Vec<char>, lo: usize, hi: usize, current: u64) -> (res: bool)
    requires
        lo <= hi <= v.len(),
    ensures
        res == field_matches(v@.subrange(lo as int, hi as int), current as nat),
{
    if hi - lo == 1 && v[lo] == '*' {
        assert(v@.subrange(lo as int, hi as int) =~= seq!['*']);
        return true;
    }
    assert(v@.subrange(lo as int, hi as int) != seq!['*']) by {
        if hi - lo == 1 {
            assert(v@.subrange(lo as int, hi as int)[0] == v@[lo as int]);
        }
    }
    match parse_u64_range(v, lo, hi) {
        Some(n) => n == current,
        None => false,
    }
}

fn cron_is_due(expr: &String, now: Moment, last: Option<Moment>) -> (res: bool)
    ensures
        res == cron_due(expr@, now, last),
{
    let v = chars_of(expr.as_str());
    let f = word_bounds(&v);
    if f.len() >= 5 {
        let minute = (now.secs / 60) % 60;
        let hour = (now.secs / 3600) % 24;
        let (a0, b0) = f[0];
        let (a1, b1) = f[1];
        assert(f[0].0 <= f[0].1 <= v.len());
        assert(f[1].0 <= f[1].1 <= v.len());
        let m = field_matches_at(&v, a0, b0, minute);
        let h = field_matches_at(&v, a1, b1, hour);
        m && h && has_waited(now, last, 60)
    } else {
        has_waited(now, last, 60)
    }
}

fn task_is_due(task: &ScheduledTask, now: Moment) -> (res: bool)
    ensures
        res == is_due(*task, now),
{
    if !task.enabled {
        return false;
    }
    match &task.schedule {
        ScheduleType::Interval(s) => has_waited(now, task.last_run, *s),
        ScheduleType::Once(at) => reached(now, *at) && task.last_run.is_none(),
        ScheduleType::Cron(e) => cron_is_due(e, now, task.last_run),
    }
}

fn next_run_for(schedule: &ScheduleType, now: Moment) -> (res: Option<Moment>)
    ensures
        res == next_run_after(*schedule, now),
{
    match schedule {
        ScheduleType::Interval(s) => checked_plus(now, *s),
        ScheduleType::Once(_) => None,
        ScheduleType::Cron(_) => checked_plus(now, 60),
    }
}

// ---------------------------------------------------------------------------
// The scheduler
// ---------------------------------------------------------------------------

/// The number of entries the task log keeps.
pub const LOG_CAPACITY: usize = 100;

/// The log after appending `entry`: only the last `LOG_CAPACITY` entries stay.
pub open spec fn logged(
    log: Seq<(String, Moment, String)>,
    entry: (String, Moment, String),
) -> Seq<(String, Moment, String)> {
    let l = log.push(entry);
    if l.len() > LOG_CAPACITY {
        l.drop_first()
    } else {
        l
    }
}

/// `task` with its `enabled` flag flipped.
pub open spec fn toggled(task: ScheduledTask) -> ScheduledTask {
    ScheduledTask { enabled: !task.enabled, ..task }
}

/// The scheduled tasks, and a log of what running them gave.
pub struct Scheduler {
    tasks: Vec<ScheduledTask>,
    task_log: Vec<(String, Moment, String)>,
}

impl Scheduler {
    pub closed spec fn spec_tasks(&self) -> Seq<ScheduledTask> {
        self.tasks@
    }

    pub closed spec fn spec_log(&self) -> Seq<(String, Moment, String)> {
        self.task_log@
    }

    pub fn new() -> (s: Self)
        ensures
            s.spec_tasks() == Seq::<ScheduledTask>::empty(),
            s.spec_log() == Seq::<(String, Moment, String)>::empty(),
    {
        Scheduler { tasks: Vec::new(), task_log: Vec::new() }
    }

    pub fn add_task(&mut self, task: ScheduledTask)
        ensures
            final(self).spec_tasks() == old(self).spec_tasks().push(task),
            final(self).spec_log() == old(self).spec_log(),
    {
        self.tasks.push(task);
    }

    pub fn get_tasks(&self) -> (res: &[ScheduledTask])
        ensures
            res@ == self.spec_tasks(),
    {
        self.tasks.as_slice()
    }

    /// The task list, for the caller to edit in place.
    pub fn get_tasks_mut(&mut self) -> (res: &mut Vec<ScheduledTask>)
        ensures
            res@ == old(self).spec_tasks(),
            final(self).spec_tasks() == final(res)@,
            final(self).spec_log() == old(self).spec_log(),
    {
        &mut self.tasks
    }

    /// Removes and returns the task at `index`, if there is one.
    pub fn remove_task(&mut self, index: usize) -> (res: Option<ScheduledTask>)
        ensures
            index < old(self).spec_tasks().len() ==> res == Some(old(self).spec_tasks()[index as int])
                && final(self).spec_tasks() == old(self).spec_tasks().remove(index as int),
            index >= old(self).spec_tasks().len() ==> res is None && final(self).spec_tasks()
                == old(self).spec_tasks(),
            final(self).spec_log() == old(self).spec_log(),
    {
        if index < self.tasks.len() {
            Some(self.tasks.remove(index))
        } else {
            None
        }
    }

    /// Enables a disabled task or disables an enabled one; `false` when there
    /// is no task at `index`.
    pub fn toggle_task(&mut self, index: usize) -> (res: bool)
        ensures
            res == (index < old(self).spec_tasks().len()),
            res ==> final(self).spec_tasks() == old(self).spec_tasks().update(
                index as int,
                toggled(old(self).spec_tasks()[index as int]),
            ),
            !res ==> final(self).spec_tasks() == old(self).spec_tasks(),
            final(self).spec_log() == old(self).spec_log(),
    {
        if index < self.tasks.len() {
            let flipped = !self.tasks[index].enabled;
            self.tasks[index].enabled = flipped;
            assert(self.tasks@ =~= old(self).tasks@.update(
                index as int,
                toggled(old(self).tasks@[index as int]),
            ));
            true
        } else {
            false
        }
    }

    pub fn get_task_log(&self) -> (res: &[(String, Moment, String)])
        ensures
            res@ == self.spec_log(),
    {
        self.task_log.as_slice()
    }

    /// Logs what running `task_name` gave, stamped with the present time;
    /// only the last `LOG_CAPACITY` entries are kept.
    pub fn add_log_entry(&mut self, task_name: String, result: String)
        ensures
            exists|at: Moment|
                final(self).spec_log() == logged(old(self).spec_log(), (task_name, at, result)),
            old(self).spec_log().len() <= LOG_CAPACITY ==> final(self).spec_log().len()
                <= LOG_CAPACITY,
            final(self).spec_tasks() == old(self).spec_tasks(),
    {
        let at = clock_now();
        self.log_entry_at(task_name, at, result);
        assert(final(self).spec_log() == logged(old(self).spec_log(), (task_name, at, result)));
    }

    /// Logs what running `task_name` gave at `at`; only the last
    /// `LOG_CAPACITY` entries are kept.
    pub fn log_entry_at(&mut self, task_name: String, at: Moment, result: String)
        ensures
            final(self).spec_log() == logged(old(self).spec_log(), (task_name, at, result)),
            old(self).spec_log().len() <= LOG_CAPACITY ==> final(self).spec_log().len()
                <= LOG_CAPACITY,
            final(self).spec_tasks() == old(self).spec_tasks(),
    {
        self.task_log.push((task_name, at, result));
        if self.task_log.len() > LOG_CAPACITY {
            self.task_log.remove(0);
            assert(self.task_log@ =~= old(self).task_log@.push((task_name, at, result)).drop_first());
        }
    }

    /// Marks the tasks due now as run and returns their positions, in
    /// increasing order.
    pub fn check_due_tasks(&mut self) -> (res: Vec<usize>)
        ensures
            exists|now: Moment|
                res@ == due_indices(old(self).spec_tasks(), now) && final(self).spec_tasks()
                    == after_check(old(self).spec_tasks(), now),
            final(self).spec_log() == old(self).spec_log(),
    {
        let now = clock_now();
        let res = self.check_due_tasks_at(now);
        assert(res@ == due_indices(old(self).spec_tasks(), now) && final(self).spec_tasks()
            == after_check(old(self).spec_tasks(), now));
        res
    }

    /// Marks the tasks due at `now` as run (their last run becomes `now`, their
    /// next run is set) and returns their positions, in increasing order.
    pub fn check_due_tasks_at(&mut self, now: Moment) -> (res: Vec<usize>)
        ensures
            res@ == due_indices(old(self).spec_tasks(), now),
            final(self).spec_tasks() == after_check(old(self).spec_tasks(), now),
            final(self).spec_log() == old(self).spec_log(),
    {
        let ghost start = self.tasks@;
        let mut due: Vec<usize> = Vec::new();
        let n = self.tasks.len();
        let mut i: usize = 0;
        while i < n
            invariant
                start == old(self).tasks@,
                n == self.tasks.len() == start.len(),
                i <= n,
                due@ == due_indices(start.take(i as int), now),
                forall|k: int|
                    0 <= k < i ==> self.tasks@[k] == (if is_due(start[k], now) {
                        ran_at(start[k], now)
                    } else {
                        start[k]
                    }),
                forall|k: int| i <= k < n ==> self.tasks@[k] == start[k],
                self.task_log@ == old(self).task_log@,
            decreases n - i,
        {
            let d = task_is_due(&self.tasks[i], now);
            assert(start.take(i + 1).drop_last() =~= start.take(i as int));
            assert(start.take(i + 1).last() == start[i as int]);
            if d {
                due.push(i);
                let next = next_run_for(&self.tasks[i].schedule, now);
                self.tasks[i].last_run = Some(now);
                self.tasks[i].next_run = next;
            }
            i += 1;
        }
        assert(start.take(n as int) =~= start);
        assert(self.tasks@ =~= after_check(start, now));
        due
    }
}

// ---------------------------------------------------------------------------
// Laws of the schedules
// ---------------------------------------------------------------------------

/// A one-off task runs at most once: once it has run, it is never due again.
pub proof fn lemma_once_runs_once(task: ScheduledTask, now: Moment, later: Moment)
    requires
        task.schedule is Once,
    ensures
        !is_due(ran_at(task, now), later),
{
}

/// An interval task that ran at `now` is not due again before its interval
/// has passed.
pub proof fn lemma_interval_spacing(task: ScheduledTask, now: Moment, later: Moment)
    requires
        task.schedule is Interval,
        is_due(ran_at(task, now), later),
    ensures
        now.total() <= later.total(),
        elapsed_secs(later, now) >= task.schedule->Interval_0,
{
}

/// A cron task that ran at `now` is not due again within the same minute.
pub proof fn lemma_cron_once_a_minute(task: ScheduledTask, now: Moment, later: Moment)
    requires
        task.schedule is Cron,
        is_due(ran_at(task, now), later),
    ensures
        now.total() <= later.total(),
        elapsed_secs(later, now) >= 60,
{
}

/// Every position reported due is a task that is due.
proof fn lemma_due_indices_are_due(tasks: Seq<ScheduledTask>, now: Moment)
    requires
        tasks.len() <= usize::MAX,
    ensures
        forall|k: int|
            0 <= k < due_indices(tasks, now).len() ==> 0 <= #[trigger] due_indices(tasks, now)[k] < tasks.len()
                && is_due(tasks[due_indices(tasks, now)[k] as int], now),
    decreases tasks.len(),
{
    if tasks.len() > 0 {
        lemma_due_indices_are_due(tasks.drop_last(), now);
        let rest = due_indices(tasks.drop_last(), now);
        let d = due_indices(tasks, now);
        assert forall|k: int| 0 <= k < d.len() implies 0 <= #[trigger] d[k] < tasks.len() && is_due(
            tasks[d[k] as int],
            now,
        ) by {
            if k < rest.len() {
                assert(d[k] == rest[k]);
                assert(tasks[rest[k] as int] == tasks.drop_last()[rest[k] as int]);
            } else {
                assert(d[k] == (tasks.len() - 1) as usize);
                assert(tasks[tasks.len() - 1] == tasks.last());
            }
        }
    }
}

/// Law: a check reports a cron task whose expression has at least five
/// fields only when its minute field is `*` or the current UTC minute (the
/// seconds since the epoch over 60, modulo 60) and its hour field is `*` or
/// the current UTC hour (the seconds over 3600, modulo 24), each written as
/// a decimal number.
pub proof fn lemma_cron_due_matches_minute_and_hour(tasks: Seq<ScheduledTask>, now: Moment, k: int)
    requires
        tasks.len() <= usize::MAX,
        0 <= k < due_indices(tasks, now).len(),
        tasks[due_indices(tasks, now)[k] as int].schedule is Cron,
        words(tasks[due_indices(tasks, now)[k] as int].schedule->Cron_0@).len() >= 5,
    ensures
        ({
            let f = words(tasks[due_indices(tasks, now)[k] as int].schedule->Cron_0@);
            &&& f[0] == seq!['*'] || parse_unsigned(f[0], u64::MAX as nat) == Some((now.whole_secs() / 60) % 60)
            &&& f[1] == seq!['*'] || parse_unsigned(f[1], u64::MAX as nat) == Some((now.whole_secs() / 3600) % 24)
        }),
{
    lemma_due_indices_are_due(tasks, now);
}

/// A disabled task is never due, and a check leaves it as it was.
pub proof fn lemma_disabled_untouched(tasks: Seq<ScheduledTask>, now: Moment, k: int)
    requires
        0 <= k < tasks.len(),
        !tasks[k].enabled,
    ensures
        !is_due(tasks[k], now),
        after_check(tasks, now)[k] == tasks[k],
{
}

/// Toggling a task twice leaves it as it was.
pub proof fn lemma_toggle_twice(task: ScheduledTask)
    ensures
        toggled(toggled(task)) == task,
{
}

// ---------------------------------------------------------------------------
// The saved form of a schedule
// ---------------------------------------------------------------------------

/// The text in which a schedule is saved: `cron:<expression>`,
/// `interval:<seconds>` or `once:<seconds since the epoch>`.
pub open spec fn schedule_text(schedule: ScheduleType) -> Seq<char> {
    match schedule {
        ScheduleType::Cron(e) => "cron:"@ + e@,
        ScheduleType::Interval(n) => "interval:"@ + decimal(n as nat),
        ScheduleType::Once(m) => "once:"@ + decimal(m.whole_secs()),
    }
}

/// What a saved schedule text says.
pub enum ScheduleReading {
    Cron(Seq<char>),
    Interval(nat),
    Once(nat),
    /// The number after `interval:` or `once:` is not a `u64`.
    BadNumber,
    /// The text starts with none of the three kinds.
    BadKind,
    /// A one-off time beyond what the clock can hold.
    Overflow,
}

/// What reading the saved text `s` of a schedule gives.
pub open spec fn read_schedule_text(s: Seq<char>) -> ScheduleReading {
    if starts_with(s, "cron:"@) {
        ScheduleReading::Cron(s.skip("cron:"@.len() as int))
    } else if starts_with(s, "interval:"@) {
        match parse_unsigned(s.skip("interval:"@.len() as int), u64::MAX as nat) {
            Some(n) => ScheduleReading::Interval(n),
            None => ScheduleReading::BadNumber,
        }
    } else if starts_with(s, "once:"@) {
        match parse_unsigned(s.skip("once:"@.len() as int), u64::MAX as nat) {
            Some(n) => if n <= MAX_CLOCK_SECS {
                ScheduleReading::Once(n)
            } else {
                ScheduleReading::Overflow
            },
            None => ScheduleReading::BadNumber,
        }
    } else {
        ScheduleReading::BadKind
    }
}

/// What is saved of a schedule (a one-off time keeps its whole seconds).
pub open spec fn saved_form(schedule: ScheduleType) -> ScheduleReading {
    match schedule {
        ScheduleType::Cron(e) => ScheduleReading::Cron(e@),
        ScheduleType::Interval(n) => ScheduleReading::Interval(n as nat),
        ScheduleType::Once(m) => ScheduleReading::Once(m.whole_secs()),
    }
}

/// Why a saved schedule text could not be read.
#[derive(Clone, Copy, Debug, PartialEq, Eq, Structural)]
pub enum ScheduleParseError {
    InvalidNumber,
    InvalidKind,
}

/// The saved text of a schedule.
pub fn schedule_to_string(schedule: &ScheduleType) -> (res: String)
    ensures
        res@ == schedule_text(*schedule),
{
    match schedule {
        ScheduleType::Cron(e) => {
            let mut r = owned("cron:");
            push_str(&mut r, e.as_str());
            r
        },
        ScheduleType::Interval(n) => {
            let mut r = owned("interval:");
            let d = decimal_string(*n);
            push_str(&mut r, d.as_str());
            r
        },
        ScheduleType::Once(m) => {
            let mut r = owned("once:");
            let d = decimal_string(m.as_secs());
            push_str(&mut r, d.as_str());
            r
        },
    }
}

/// Whether `v` starts with `p`; the length of `p` when it does.
fn prefix_len(v: &Vec<char>, p: &str) -> (res: Option<usize>)
    ensures
        res is Some <==> starts_with(v@, p@),
        res matches Some(k) ==> k == p@.len(),
{
    let pv = chars_of(p);
    if pv.len() <= v.len() && range_eq(v, 0, pv.len(), &pv) {
        Some(pv.len())
    } else {
        None
    }
}

/// Reads a saved schedule text; `None` exactly where the text names a
/// one-off time the clock cannot hold.
pub fn try_parse_schedule(s: &str) -> (res: Option<Result<ScheduleType, ScheduleParseError>>)
    ensures
        match read_schedule_text(s@) {
            ScheduleReading::Overflow => res is None,
            ScheduleReading::BadNumber => res == Some(
                Err::<ScheduleType, ScheduleParseError>(ScheduleParseError::InvalidNumber),
            ),
            ScheduleReading::BadKind => res == Some(
                Err::<ScheduleType, ScheduleParseError>(ScheduleParseError::InvalidKind),
            ),
            r => res matches Some(Ok(t)) && saved_form(t) == r && (t matches ScheduleType::Once(m)
                ==> m.total() == m.whole_secs() * 1_000_000_000),
        },
{
    let v = chars_of(s);
    let n = v.len();
    if let Some(k) = prefix_len(&v, "cron:") {
        let e = string_of(&v, k, n);
        assert(v@.subrange(k as int, n as int) =~= s@.skip(k as int));
        return Some(Ok(ScheduleType::Cron(e)));
    }
    if let Some(k) = prefix_len(&v, "interval:") {
        assert(v@.subrange(k as int, n as int) =~= s@.skip(k as int));
        return match parse_u64_range(&v, k, n) {
            Some(secs) => Some(Ok(ScheduleType::Interval(secs))),
            None => Some(Err(ScheduleParseError::InvalidNumber)),
        };
    }
    if let Some(k) = prefix_len(&v, "once:") {
        assert(v@.subrange(k as int, n as int) =~= s@.skip(k as int));
        return match parse_u64_range(&v, k, n) {
            Some(secs) => if secs <= MAX_CLOCK_SECS {
                Some(Ok(ScheduleType::Once(Moment::from_secs(secs))))
            } else {
                None
            },
            None => Some(Err(ScheduleParseError::InvalidNumber)),
        };
    }
    Some(Err(ScheduleParseError::InvalidKind))
}

/// Reads a saved schedule text.
pub fn parse_schedule(s: &str) -> (res: Result<ScheduleType, ScheduleParseError>)
    requires
        !(read_schedule_text(s@) is Overflow),
    ensures
        match read_schedule_text(s@) {
            ScheduleReading::BadNumber => res == Err::<ScheduleType, ScheduleParseError>(
                ScheduleParseError::InvalidNumber,
            ),
            ScheduleReading::BadKind => res == Err::<ScheduleType, ScheduleParseError>(
                ScheduleParseError::InvalidKind,
            ),
            r => res matches Ok(t) && saved_form(t) == r && (t matches ScheduleType::Once(m)
                ==> m.total() == m.whole_secs() * 1_000_000_000),
        },
{
    match try_parse_schedule(s) {
        Some(r) => r,
        None => {
            assert(false);
            Err(ScheduleParseError::InvalidKind)
        },
    }
}

/// Reading back the saved text of a schedule gives the schedule back, a
/// one-off time to the whole second.
pub proof fn lemma_schedule_text_round_trip(schedule: ScheduleType)
    requires
        schedule matches ScheduleType::Once(m) ==> m.whole_secs() <= MAX_CLOCK_SECS,
    ensures
        read_schedule_text(schedule_text(schedule)) == saved_form(schedule),
{
    reveal_strlit("cron:");
    reveal_strlit("interval:");
    reveal_strlit("once:");
    let t = schedule_text(schedule);
    match schedule {
        ScheduleType::Cron(e) => {
            assert(t.subrange(0, 5) =~= "cron:"@);
            assert(t.skip(5) =~= e@);
        },
        ScheduleType::Interval(n) => {
            assert(t[0] == 'i');
            assert(!starts_with(t, "cron:"@)) by {
                if starts_with(t, "cron:"@) {
                    assert(t.subrange(0, 5)[0] == 'c');
                }
            }
            assert(t.subrange(0, 9) =~= "interval:"@);
            assert(t.skip(9) =~= decimal(n as nat));
            lemma_parse_decimal(n as nat, u64::MAX as nat);
        },
        ScheduleType::Once(m) => {
            assert(t[0] == 'o');
            assert(!starts_with(t, "cron:"@)) by {
                if starts_with(t, "cron:"@) {
                    assert(t.subrange(0, 5)[0] == 'c');
                }
            }
            assert(!starts_with(t, "interval:"@)) by {
                if starts_with(t, "interval:"@) {
                    assert(t.subrange(0, 9)[0] == 'i');
                }
            }
            assert(t.subrange(0, 5) =~= "once:"@);
            assert(t.skip(5) =~= decimal(m.whole_secs()));
            lemma_parse_decimal(m.whole_secs(), u64::MAX as nat);
        },
    }
}

/// Where the scheduled tasks are saved: `<home>/.lpm/scheduled_tasks.toml`,
/// with `.` standing for a missing home directory.
pub open spec fn tasks_file(home: Option<Seq<char>>) -> Seq<char> {
    let base = match home {
        Some(h) => h,
        None => "."@,
    };
    join_path(join_path(base, ".lpm"@), "scheduled_tasks.toml"@)
}

/// The path of the scheduled-tasks file, given the value of `$HOME` if it is set.
pub fn tasks_file_path(home: Option<String>) -> (res: String)
    ensures
        res@ == tasks_file(match home {
            Some(h) => Some(h@),
            None => None::<Seq<char>>,
        }),
{
    let base = match home {
        Some(h) => h,
        None => owned("."),
    };
    let dir = join(base.as_str(), ".lpm");
    join(dir.as_str(), "scheduled_tasks.toml")
}

} // verus!
