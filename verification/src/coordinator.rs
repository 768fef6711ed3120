//! Multi-host coordination: the remote hosts this instance watches and the
//! processes last reported by each.
//!
//! Fetching from an agent is network work, done by the caller, which hands
//! the reply to `update_host_data` or reports a failure with
//! `mark_host_disconnected`.

use vstd::prelude::*;
use crate::procinfo::{ProcessInfo, ProcessView, opt_view, copy_opt};
use crate::scheduler::{clock_now, Moment};
use crate::text::str_eq;

verus! {

/// A host running an agent, by its `address` (`host:port`).
pub struct RemoteHost {
    pub address: String,
    pub name: String,
    pub connected: bool,
    pub last_update: Option<Moment>,
}

/// A process as an agent reports it; `cpu_usage_bits` is the bit pattern of
/// its CPU share (an `f32`).
pub struct RemoteProcessInfo {
    pub pid: u32,
    pub name: String,
    pub cpu_usage_bits: u32,
    pub memory_usage: u64,
    pub parent_pid: Option<u32>,
    pub status: String,
    pub user: Option<String>,
    pub nice: i32,
    pub start_time_str: String,
    pub start_timestamp: u64,
    pub host: String,
}

/// The model of a reported process.
pub struct RemoteView {
    pub pid: u32,
    pub name: Seq<char>,
    pub cpu_usage_bits: u32,
    pub memory_usage: u64,
    pub parent_pid: Option<u32>,
    pub status: Seq<char>,
    pub user: Option<Seq<char>>,
    pub nice: i32,
    pub start_time_str: Seq<char>,
    pub start_timestamp: u64,
    pub host: Seq<char>,
}

impl View for RemoteProcessInfo {
    type V = RemoteView;

    open spec fn view(&self) -> RemoteView {
        RemoteView {
            pid: self.pid,
            name: self.name@,
            cpu_usage_bits: self.cpu_usage_bits,
            memory_usage: self.memory_usage,
            parent_pid: self.parent_pid,
            status: self.status@,
            user: opt_view(self.user),
            nice: self.nice,
            start_time_str: self.start_time_str@,
            start_timestamp: self.start_timestamp,
            host: self.host@,
        }
    }
}

impl RemoteProcessInfo {
    /// A field-by-field copy.
    pub fn duplicate(&self) -> (res: RemoteProcessInfo)
        ensures
            res@ == self@,
    {
        RemoteProcessInfo {
            pid: self.pid,
            name: self.name.clone(),
            cpu_usage_bits: self.cpu_usage_bits,
            memory_usage: self.memory_usage,
            parent_pid: self.parent_pid,
            status: self.status.clone(),
            user: copy_opt(&self.user),
            nice: self.nice,
            start_time_str: self.start_time_str.clone(),
            start_timestamp: self.start_timestamp,
            host: self.host.clone(),
        }
    }

    /// The process as the rest of the program sees it: on the reporting
    /// host, with no cgroup, container or namespace known.
    pub fn into_process_info(self) -> (p: ProcessInfo)
        ensures
            p@ == (ProcessView {
                pid: self@.pid,
                name: self@.name,
                cpu_usage_bits: self@.cpu_usage_bits,
                memory_usage: self@.memory_usage,
                parent_pid: self@.parent_pid,
                status: self@.status,
                user: self@.user,
                nice: self@.nice,
                start_time_str: self@.start_time_str,
                start_timestamp: self@.start_timestamp,
                cgroup: None,
                container_id: None,
                namespace_ids: Seq::empty(),
                host: Some(self@.host),
            }),
    {
        let p = ProcessInfo {
            pid: self.pid,
            name: self.name,
            cpu_usage_bits: self.cpu_usage_bits,
            memory_usage: self.memory_usage,
            parent_pid: self.parent_pid,
            status: self.status,
            user: self.user,
            nice: self.nice,
            start_time_str: self.start_time_str,
            start_timestamp: self.start_timestamp,
            cgroup: None,
            container_id: None,
            namespace_ids: Vec::new(),
            host: Some(self.host),
        };
        assert(crate::procinfo::pair_views(p.namespace_ids@) =~= Seq::empty());
        p
    }
}

pub open spec fn remote_views(v: Seq<RemoteProcessInfo>) -> Seq<RemoteView> {
    v.map_values(|p: RemoteProcessInfo| p@)
}

/// The first host with address `a`.
pub open spec fn host_index(hosts: Seq<RemoteHost>, a: Seq<char>) -> Option<int>
    decreases hosts.len(),
{
    if hosts.len() == 0 {
        None
    } else if hosts[0].address@ == a {
        Some(0)
    } else {
        match host_index(hosts.drop_first(), a) {
            Some(i) => Some(i + 1),
            None => None,
        }
    }
}

/// No two hosts share an address.
pub open spec fn addresses_unique(hosts: Seq<RemoteHost>) -> bool {
    forall|i: int, j: int|
        0 <= i < j < hosts.len() ==> hosts[i].address@ != hosts[j].address@
}

/// The hosts other than `a`.
pub open spec fn not_host(a: Seq<char>) -> spec_fn(RemoteHost) -> bool {
    |h: RemoteHost| h.address@ != a
}

/// The reports other than that of `a`.
pub open spec fn not_report_of(a: Seq<char>) -> spec_fn((Seq<char>, Seq<RemoteView>)) -> bool {
    |e: (Seq<char>, Seq<RemoteView>)| e.0 != a
}

pub open spec fn report_views(v: Seq<(String, Vec<RemoteProcessInfo>)>) -> Seq<(Seq<char>, Seq<RemoteView>)> {
    v.map_values(|e: (String, Vec<RemoteProcessInfo>)| (e.0@, remote_views(e.1@)))
}

/// The first report of host `a`.
pub open spec fn report_index(r: Seq<(Seq<char>, Seq<RemoteView>)>, a: Seq<char>) -> Option<int>
    decreases r.len(),
{
    if r.len() == 0 {
        None
    } else if r[0].0 == a {
        Some(0)
    } else {
        match report_index(r.drop_first(), a) {
            Some(i) => Some(i + 1),
            None => None,
        }
    }
}

/// All reported processes, host after host.
pub open spec fn all_reported(r: Seq<(Seq<char>, Seq<RemoteView>)>) -> Seq<RemoteView>
    decreases r.len(),
{
    if r.len() == 0 {
        seq![]
    } else {
        all_reported(r.drop_last()) + r.last().1
    }
}

proof fn lemma_host_index(hosts: Seq<RemoteHost>, a: Seq<char>)
    ensures
        host_index(hosts, a) matches Some(i) ==> 0 <= i < hosts.len() && hosts[i].address@ == a
            && forall|j: int| 0 <= j < i ==> hosts[j].address@ != a,
        host_index(hosts, a) is None ==> forall|j: int| 0 <= j < hosts.len() ==> hosts[j].address@ != a,
    decreases hosts.len(),
{
    if hosts.len() > 0 && hosts[0].address@ != a {
        lemma_host_index(hosts.drop_first(), a);
        assert forall|j: int| 1 <= j < hosts.len() implies hosts[j] == hosts.drop_first()[j - 1] by {}
    }
}

proof fn lemma_report_index(r: Seq<(Seq<char>, Seq<RemoteView>)>, a: Seq<char>)
    ensures
        report_index(r, a) matches Some(i) ==> 0 <= i < r.len() && r[i].0 == a && forall|j: int|
            0 <= j < i ==> r[j].0 != a,
        report_index(r, a) is None ==> forall|j: int| 0 <= j < r.len() ==> r[j].0 != a,
    decreases r.len(),
{
    if r.len() > 0 && r[0].0 != a {
        lemma_report_index(r.drop_first(), a);
        assert forall|j: int| 1 <= j < r.len() implies r[j] == r.drop_first()[j - 1] by {}
    }
}

/// The hosts after host `a` reported at `now`: it is marked connected and updated.
pub open spec fn hosts_after_report(hosts: Seq<RemoteHost>, a: Seq<char>, now: Moment) -> Seq<
    RemoteHost,
> {
    match host_index(hosts, a) {
        Some(i) => hosts.update(
            i,
            RemoteHost { connected: true, last_update: Some(now), ..hosts[i] },
        ),
        None => hosts,
    }
}

/// The reports after host `a` reported `procs`: its report replaces any earlier one.
pub open spec fn reports_after(
    r: Seq<(Seq<char>, Seq<RemoteView>)>,
    a: Seq<char>,
    procs: Seq<RemoteView>,
) -> Seq<(Seq<char>, Seq<RemoteView>)> {
    match report_index(r, a) {
        Some(i) => r.update(i, (a, procs)),
        None => r.push((a, procs)),
    }
}

/// The hosts being watched and what each last reported.
pub struct Coordinator {
    hosts: Vec<RemoteHost>,
    remote_processes: Vec<(String, Vec<RemoteProcessInfo>)>,
}

impl Coordinator {
    pub closed spec fn spec_hosts(&self) -> Seq<RemoteHost> {
        self.hosts@
    }

    /// Each watched host's last report, by address.
    pub closed spec fn spec_reports(&self) -> Seq<(Seq<char>, Seq<RemoteView>)> {
        report_views(self.remote_processes@)
    }

    pub fn new() -> (c: Self)
        ensures
            c.spec_hosts().len() == 0,
            c.spec_reports().len() == 0,
    {
        Coordinator { hosts: Vec::new(), remote_processes: Vec::new() }
    }

    fn find_host(&self, address: &str) -> (res: Option<usize>)
        ensures
            res matches Some(i) ==> host_index(self.hosts@, address@) == Some(i as int),
            res is None ==> host_index(self.hosts@, address@) is None,
    {
        proof {
            lemma_host_index(self.hosts@, address@);
        }
        let mut i: usize = 0;
        while i < self.hosts.len()
            invariant
                i <= self.hosts.len(),
                forall|j: int| 0 <= j < i ==> self.hosts@[j].address@ != address@,
                host_index(self.hosts@, address@) matches Some(k) ==> i <= k,
            decreases self.hosts.len() - i,
        {
            proof {
                lemma_host_index(self.hosts@, address@);
            }
            if str_eq(self.hosts[i].address.as_str(), address) {
                return Some(i);
            }
            i += 1;
        }
        None
    }

    /// Starts watching a host, unless one with that address is watched already.
    pub fn add_host(&mut self, address: String, name: String)
        ensures
            host_index(old(self).spec_hosts(), address@) is Some ==> final(self).spec_hosts()
                == old(self).spec_hosts(),
            host_index(old(self).spec_hosts(), address@) is None ==> final(self).spec_hosts()
                == old(self).spec_hosts().push(
                RemoteHost { address, name, connected: false, last_update: None },
            ),
            addresses_unique(old(self).spec_hosts()) ==> addresses_unique(final(self).spec_hosts()),
            final(self).spec_reports() == old(self).spec_reports(),
    {
        proof {
            lemma_host_index(self.hosts@, address@);
        }
        if self.find_host(address.as_str()).is_none() {
            self.hosts.push(RemoteHost { address, name, connected: false, last_update: None });
        }
    }

    /// Stops watching a host and forgets its report.
    pub fn remove_host(&mut self, address: &str)
        ensures
            final(self).spec_hosts() == old(self).spec_hosts().filter(not_host(address@)),
            final(self).spec_reports() == old(self).spec_reports().filter(
                not_report_of(address@),
            ),
    {
        let ghost hosts0 = self.hosts@;
        let mut kept: Vec<RemoteHost> = Vec::new();
        let mut rest: Vec<RemoteHost> = Vec::new();
        std::mem::swap(&mut rest, &mut self.hosts);
        let n = rest.len();
        let mut i: usize = 0;
        while i < n
            invariant
                n == hosts0.len(),
                i <= n,
                rest@ == hosts0.skip(i as int),
                kept@ == hosts0.take(i as int).filter(not_host(address@)),
            decreases n - i,
        {
            let h = rest.remove(0);
            proof {
                assert(h == hosts0[i as int]);
                assert(hosts0.take(i + 1).drop_last() =~= hosts0.take(i as int));
                reveal(Seq::filter);
                assert(hosts0.skip(i as int).drop_first() =~= hosts0.skip(i + 1));
            }
            if !str_eq(h.address.as_str(), address) {
                kept.push(h);
            }
            i += 1;
        }
        assert(hosts0.take(n as int) =~= hosts0);
        self.hosts = kept;
        let ghost reps0 = self.remote_processes@;
        let mut kept_r: Vec<(String, Vec<RemoteProcessInfo>)> = Vec::new();
        let mut rest_r: Vec<(String, Vec<RemoteProcessInfo>)> = Vec::new();
        std::mem::swap(&mut rest_r, &mut self.remote_processes);
        let m = rest_r.len();
        let mut j: usize = 0;
        while j < m
            invariant
                m == reps0.len(),
                j <= m,
                rest_r@ == reps0.skip(j as int),
                report_views(kept_r@) == report_views(reps0).take(j as int).filter(
                    not_report_of(address@),
                ),
            decreases m - j,
        {
            let e = rest_r.remove(0);
            proof {
                assert(e == reps0[j as int]);
                let rv = report_views(reps0);
                assert(rv.take(j + 1).drop_last() =~= rv.take(j as int));
                assert(rv.take(j + 1).last() == (e.0@, remote_views(e.1@)));
                reveal(Seq::filter);
                assert(reps0.skip(j as int).drop_first() =~= reps0.skip(j + 1));
            }
            if !str_eq(e.0.as_str(), address) {
                let ghost before = kept_r@;
                kept_r.push(e);
                assert(report_views(kept_r@) =~= report_views(before).push(
                    (e.0@, remote_views(e.1@)),
                ));
            }
            j += 1;
        }
        assert(report_views(reps0).take(m as int) =~= report_views(reps0));
        self.remote_processes = kept_r;
    }

    pub fn get_hosts(&self) -> (res: &[RemoteHost])
        ensures
            res@ == self.spec_hosts(),
    {
        self.hosts.as_slice()
    }

    /// Every reported process, host after host.
    pub fn get_remote_processes(&self) -> (res: Vec<RemoteProcessInfo>)
        ensures
            remote_views(res@) == all_reported(self.spec_reports()),
    {
        let mut res: Vec<RemoteProcessInfo> = Vec::new();
        let ghost rv = report_views(self.remote_processes@);
        let mut j: usize = 0;
        while j < self.remote_processes.len()
            invariant
                j <= self.remote_processes.len(),
                rv == report_views(self.remote_processes@),
                remote_views(res@) == all_reported(rv.take(j as int)),
            decreases self.remote_processes.len() - j,
        {
            let procs = &self.remote_processes[j].1;
            let ghost start = remote_views(res@);
            let mut k: usize = 0;
            while k < procs.len()
                invariant
                    k <= procs.len(),
                    remote_views(res@) == start + remote_views(procs@).take(k as int),
                decreases procs.len() - k,
            {
                let ghost before = res@;
                res.push(procs[k].duplicate());
                assert(remote_views(res@) =~= remote_views(before).push(procs@[k as int]@));
                assert(remote_views(procs@).take(k + 1) =~= remote_views(procs@).take(k as int).push(
                    procs@[k as int]@,
                ));
                k += 1;
            }
            proof {
                assert(remote_views(procs@).take(procs.len() as int) =~= remote_views(procs@));
                assert(rv.take(j + 1).drop_last() =~= rv.take(j as int));
                assert(rv.take(j + 1).last() == rv[j as int]);
            }
            j += 1;
        }
        assert(rv.take(self.remote_processes.len() as int) =~= rv);
        res
    }

    /// Records what a host reported, now: the host is marked connected and
    /// updated, and its report replaces any earlier one.
    pub fn update_host_data(&mut self, host_address: &str, processes: Vec<RemoteProcessInfo>)
        ensures
            exists|now: Moment|
                final(self).spec_hosts() == #[trigger] hosts_after_report(
                    old(self).spec_hosts(),
                    host_address@,
                    now,
                ),
            final(self).spec_reports() == reports_after(
                old(self).spec_reports(),
                host_address@,
                remote_views(processes@),
            ),
    {
        let now = clock_now();
        self.update_host_data_at(host_address, processes, now);
        assert(final(self).spec_hosts() == hosts_after_report(
            old(self).spec_hosts(),
            host_address@,
            now,
        ));
    }

    /// Records what a host reported at `now`.
    pub fn update_host_data_at(
        &mut self,
        host_address: &str,
        processes: Vec<RemoteProcessInfo>,
        now: Moment,
    )
        ensures
            final(self).spec_hosts() == hosts_after_report(old(self).spec_hosts(), host_address@, now),
            final(self).spec_reports() == reports_after(
                old(self).spec_reports(),
                host_address@,
                remote_views(processes@),
            ),
    {
        if let Some(i) = self.find_host(host_address) {
            proof {
                lemma_host_index(self.hosts@, host_address@);
            }
            self.hosts[i].connected = true;
            self.hosts[i].last_update = Some(now);
            assert(self.hosts@ =~= old(self).hosts@.update(
                i as int,
                RemoteHost {
                    connected: true,
                    last_update: Some(now),
                    ..old(self).hosts@[i as int]
                },
            ));
        }
        let ghost r0 = report_views(self.remote_processes@);
        proof {
            lemma_report_index(r0, host_address@);
        }
        let mut j: usize = 0;
        let mut found = false;
        while j < self.remote_processes.len() && !found
            invariant
                j <= self.remote_processes.len(),
                r0 == report_views(self.remote_processes@),
                forall|m: int| 0 <= m < j ==> r0[m].0 != host_address@,
                found ==> j < self.remote_processes.len() && r0[j as int].0 == host_address@,
            decreases self.remote_processes.len() - j + (if found { 0int } else { 1int }),
        {
            if str_eq(self.remote_processes[j].0.as_str(), host_address) {
                found = true;
            } else {
                j += 1;
            }
        }
        let name = crate::text::owned(host_address);
        let ghost pv = remote_views(processes@);
        if found {
            assert(report_index(r0, host_address@) == Some(j as int));
            self.remote_processes.set(j, (name, processes));
            assert(report_views(self.remote_processes@) =~= r0.update(j as int, (host_address@, pv)));
        } else {
            assert(report_index(r0, host_address@) is None);
            self.remote_processes.push((name, processes));
            assert(report_views(self.remote_processes@) =~= r0.push((host_address@, pv)));
        }
    }

    /// Marks a host as not connected.
    pub fn mark_host_disconnected(&mut self, host_address: &str)
        ensures
            final(self).spec_hosts() == (match host_index(
                old(self).spec_hosts(),
                host_address@,
            ) {
                Some(i) => old(self).spec_hosts().update(
                    i,
                    RemoteHost { connected: false, ..old(self).spec_hosts()[i] },
                ),
                None => old(self).spec_hosts(),
            }),
            final(self).spec_reports() == old(self).spec_reports(),
    {
        if let Some(i) = self.find_host(host_address) {
            proof {
                lemma_host_index(self.hosts@, host_address@);
            }
            self.hosts[i].connected = false;
            assert(self.hosts@ =~= old(self).hosts@.update(
                i as int,
                RemoteHost { connected: false, ..old(self).hosts@[i as int] },
            ));
        }
    }
}

/// A host that was added is found by its address, so adding it again changes
/// nothing.
pub proof fn lemma_added_host_found(hosts: Seq<RemoteHost>, h: RemoteHost)
    requires
        host_index(hosts, h.address@) is None,
    ensures
        host_index(hosts.push(h), h.address@) is Some,
{
    lemma_host_index(hosts, h.address@);
    lemma_host_index(hosts.push(h), h.address@);
    if host_index(hosts.push(h), h.address@) is None {
        assert(hosts.push(h)[hosts.len() as int].address@ == h.address@);
    }
}

/// After a host is removed, no watched host has its address.
pub proof fn lemma_removed_host_gone(hosts: Seq<RemoteHost>, a: Seq<char>)
    ensures
        host_index(hosts.filter(not_host(a)), a) is None,
{
    let kept = hosts.filter(not_host(a));
    lemma_host_index(kept, a);
    if let Some(i) = host_index(kept, a) {
        hosts.lemma_filter_pred(not_host(a), i);
    }
}

} // verus!
