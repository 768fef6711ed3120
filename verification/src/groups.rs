//! Grouping processes by cgroup, container, namespace or user.
//!
//! Groups come in the order in which their first member appears, and each
//! group keeps its members in the order given. CPU totals are floating point
//! and are the caller's to add up from the members.

use vstd::prelude::*;
use crate::procinfo::{ProcessInfo, ProcessView, lookup_namespace, ns_lookup, views};
use crate::text::{chars_of, decimal, decimal_string, owned, push_str, str_eq};

verus! {

/// What processes are grouped by.
#[derive(Clone, Debug, PartialEq, Eq)]
pub enum GroupType {
    Cgroup,
    Container,
    /// A namespace type such as `pid`, `net` or `mnt`.
    Namespace(String),
    /// The name of the user that runs the process.
    Username,
}

/// The model of a `GroupType`.
pub enum GroupKind {
    Cgroup,
    Container,
    Namespace(Seq<char>),
    Username,
}

impl View for GroupType {
    type V = GroupKind;

    open spec fn view(&self) -> GroupKind {
        match self {
            GroupType::Cgroup => GroupKind::Cgroup,
            GroupType::Container => GroupKind::Container,
            GroupType::Namespace(t) => GroupKind::Namespace(t@),
            GroupType::Username => GroupKind::Username,
        }
    }
}

fn copy_group_type(g: &GroupType) -> (res: GroupType)
    ensures
        res@ == g@,
{
    match g {
        GroupType::Cgroup => GroupType::Cgroup,
        GroupType::Container => GroupType::Container,
        GroupType::Namespace(t) => GroupType::Namespace(t.clone()),
        GroupType::Username => GroupType::Username,
    }
}

/// The group that `p` belongs to under `kind`, named by its group ID: its
/// cgroup (`No cgroup` without one), its container (`No container`), its user
/// (`Unknown`), or `type:inode` of its namespace of that type; a process with
/// no namespace of the type belongs to no group.
pub open spec fn group_key(kind: GroupKind, p: ProcessView) -> Option<Seq<char>> {
    match kind {
        GroupKind::Cgroup => Some(
            match p.cgroup {
                Some(c) => c,
                None => "No cgroup"@,
            },
        ),
        GroupKind::Container => Some(
            match p.container_id {
                Some(c) => c,
                None => "No container"@,
            },
        ),
        GroupKind::Username => Some(
            match p.user {
                Some(u) => u,
                None => "Unknown"@,
            },
        ),
        GroupKind::Namespace(t) => match ns_lookup(p.namespace_ids, t) {
            Some(id) => Some(t + ":"@ + decimal(id as nat)),
            None => None,
        },
    }
}

/// The distinct keys in `keys` (absent ones skipped), in order of first appearance.
pub open spec fn distinct_keys<V>(keys: Seq<Option<V>>) -> Seq<V>
    decreases keys.len(),
{
    if keys.len() == 0 {
        seq![]
    } else {
        let d = distinct_keys(keys.drop_last());
        match keys.last() {
            Some(k) => if d.contains(k) {
                d
            } else {
                d.push(k)
            },
            None => d,
        }
    }
}

/// The group that `p` belongs to under `kind`, as a function of `p`.
pub open spec fn group_key_fn(kind: GroupKind) -> spec_fn(ProcessView) -> Option<Seq<char>> {
    |p: ProcessView| group_key(kind, p)
}

/// Whether a process has the key `k`.
pub open spec fn with_key<V>(key: spec_fn(ProcessView) -> Option<V>, k: V) -> spec_fn(
    ProcessView,
) -> bool {
    |p: ProcessView| key(p) == Some(k)
}

/// The memory of all of `ps`, in bytes.
pub open spec fn mem_total(ps: Seq<ProcessView>) -> nat
    decreases ps.len(),
{
    if ps.len() == 0 {
        0
    } else {
        mem_total(ps.drop_last()) + ps.last().memory_usage as nat
    }
}

/// A group of processes, with their memory in total.
pub struct ProcessGroup {
    pub group_type: GroupType,
    pub group_id: String,
    pub processes: Vec<ProcessInfo>,
    pub total_memory: u64,
}

impl ProcessGroup {
    /// An empty group.
    pub fn new(group_type: GroupType, group_id: String) -> (g: Self)
        ensures
            g.group_type == group_type,
            g.group_id == group_id,
            g.processes@.len() == 0,
            g.total_memory == 0,
    {
        ProcessGroup { group_type, group_id, processes: Vec::new(), total_memory: 0 }
    }

    /// Adds a process to the group.
    pub fn add_process(&mut self, process: ProcessInfo)
        requires
            old(self).total_memory + process.memory_usage <= u64::MAX,
        ensures
            final(self).processes@ == old(self).processes@.push(process),
            final(self).total_memory == old(self).total_memory + process.memory_usage,
            final(self).group_type == old(self).group_type,
            final(self).group_id == old(self).group_id,
    {
        self.total_memory = self.total_memory + process.memory_usage;
        self.processes.push(process);
    }

    pub fn process_count(&self) -> (n: usize)
        ensures
            n == self.processes@.len(),
    {
        self.processes.len()
    }
}

/// `groups` are the groups of `ps` under `kind`: one for each distinct key, in
/// order of first appearance, each with its members in order and their memory
/// in total.
pub open spec fn is_grouping(ps: Seq<ProcessView>, kind: GroupKind, groups: Seq<ProcessGroup>) -> bool {
    let ids = distinct_keys(ps.map_values(group_key_fn(kind)));
    &&& groups.len() == ids.len()
    &&& forall|j: int|
        0 <= j < groups.len() ==> {
            &&& (#[trigger] groups[j]).group_type@ == kind
            &&& groups[j].group_id@ == ids[j]
            &&& views(groups[j].processes@) == ps.filter(with_key(group_key_fn(kind), ids[j]))
            &&& groups[j].total_memory == mem_total(ps.filter(with_key(group_key_fn(kind), ids[j])))
        }
}

// ---------------------------------------------------------------------------
// Lemmas
// ---------------------------------------------------------------------------

/// The distinct keys are distinct, and are exactly the keys present.
pub proof fn lemma_distinct_keys<V>(keys: Seq<Option<V>>)
    ensures
        forall|a: int, b: int|
            0 <= a < b < distinct_keys(keys).len() ==> distinct_keys(keys)[a] != distinct_keys(
                keys,
            )[b],
        forall|k: V|
            distinct_keys(keys).contains(k) <==> exists|i: int|
                0 <= i < keys.len() && keys[i] == Some(k),
    decreases keys.len(),
{
    if keys.len() > 0 {
        let pre = keys.drop_last();
        lemma_distinct_keys(pre);
        let d = distinct_keys(keys);
        let dp = distinct_keys(pre);
        assert forall|k: V| d.contains(k) implies exists|i: int|
            0 <= i < keys.len() && keys[i] == Some(k) by {
            if dp.contains(k) {
                let i = choose|i: int| 0 <= i < pre.len() && pre[i] == Some(k);
                assert(keys[i] == Some(k));
            } else {
                let a = choose|a: int| 0 <= a < d.len() && d[a] == k;
                assert(a == dp.len());
                assert(keys[keys.len() - 1] == Some(k));
            }
        }
        assert forall|k: V|
            (exists|i: int| 0 <= i < keys.len() && keys[i] == Some(k)) implies d.contains(k) by {
            let i = choose|i: int| 0 <= i < keys.len() && keys[i] == Some(k);
            if i < keys.len() - 1 {
                assert(pre[i] == Some(k));
                assert(exists|i2: int| 0 <= i2 < pre.len() && pre[i2] == Some(k));
                assert(dp.contains(k));
                let a = choose|a: int| 0 <= a < dp.len() && dp[a] == k;
                assert(d[a] == k);
            } else {
                assert(keys.last() == Some(k));
                if dp.contains(k) {
                    let a = choose|a: int| 0 <= a < dp.len() && dp[a] == k;
                    assert(d[a] == k);
                } else {
                    assert(d[dp.len() as int] == k);
                }
            }
        }
    }
}

pub(crate) proof fn lemma_mem_push(s: Seq<ProcessView>, p: ProcessView)
    ensures
        mem_total(s.push(p)) == mem_total(s) + p.memory_usage,
{
    assert(s.push(p).drop_last() =~= s);
}

pub(crate) proof fn lemma_mem_filter_le(s: Seq<ProcessView>, f: spec_fn(ProcessView) -> bool)
    ensures
        mem_total(s.filter(f)) <= mem_total(s),
    decreases s.len(),
{
    reveal(Seq::filter);
    if s.len() > 0 {
        lemma_mem_filter_le(s.drop_last(), f);
        if f(s.last()) {
            lemma_mem_push(s.drop_last().filter(f), s.last());
        }
    }
}

pub(crate) proof fn lemma_mem_take_le(s: Seq<ProcessView>, i: int)
    requires
        0 <= i <= s.len(),
    ensures
        mem_total(s.take(i)) <= mem_total(s),
    decreases s.len() - i,
{
    if i < s.len() {
        lemma_mem_take_le(s, i + 1);
        assert(s.take(i + 1).drop_last() =~= s.take(i));
    } else {
        assert(s.take(i) =~= s);
    }
}

/// The filter of a prefix one longer.
pub(crate) proof fn lemma_filter_take_step(s: Seq<ProcessView>, i: int, f: spec_fn(ProcessView) -> bool)
    requires
        0 <= i < s.len(),
    ensures
        s.take(i + 1).filter(f) == (if f(s[i]) {
            s.take(i).filter(f).push(s[i])
        } else {
            s.take(i).filter(f)
        }),
{
    reveal(Seq::filter);
    assert(s.take(i + 1).drop_last() =~= s.take(i));
    assert(s.take(i + 1).last() == s[i]);
}

/// Nothing in `s` satisfies `f`, so its filter is empty.
pub(crate) proof fn lemma_filter_none(s: Seq<ProcessView>, f: spec_fn(ProcessView) -> bool)
    requires
        forall|i: int| 0 <= i < s.len() ==> !f(#[trigger] s[i]),
    ensures
        s.filter(f) == Seq::<ProcessView>::empty(),
    decreases s.len(),
{
    reveal(Seq::filter);
    if s.len() > 0 {
        assert forall|i: int| 0 <= i < s.drop_last().len() implies !f(#[trigger] s.drop_last()[i]) by {
            assert(s.drop_last()[i] == s[i]);
        }
        lemma_filter_none(s.drop_last(), f);
        assert(!f(s[s.len() - 1]));
    }
}

// ---------------------------------------------------------------------------
// Grouping
// ---------------------------------------------------------------------------

/// A key that processes can be grouped by.
pub trait GroupKey: View + Sized {
    fn same(&self, other: &Self) -> (r: bool)
        ensures
            r == (self@ == other@),
    ;

    fn copy_key(&self) -> (r: Self)
        ensures
            r@ == self@,
    ;
}

impl GroupKey for String {
    fn same(&self, other: &Self) -> (r: bool) {
        str_eq(self.as_str(), other.as_str())
    }

    fn copy_key(&self) -> (r: Self) {
        self.clone()
    }
}

impl GroupKey for u64 {
    fn same(&self, other: &Self) -> (r: bool) {
        *self == *other
    }

    fn copy_key(&self) -> (r: Self) {
        *self
    }
}

pub open spec fn key_view<K: View>(o: Option<K>) -> Option<K::V> {
    match o {
        Some(k) => Some(k@),
        None => None,
    }
}

/// The processes in one group while grouping: its key, its members in order,
/// their memory in total, and the position of its first member.
pub(crate) struct Bucket<K> {
    pub(crate) key: K,
    pub(crate) members: Vec<ProcessInfo>,
    pub(crate) total_memory: u64,
    pub(crate) first: usize,
}

/// `res` holds the groups of `ps` by `key`: one per distinct key, in order of
/// first appearance.
pub(crate) open spec fn bucketed<K: View>(
    ps: Seq<ProcessView>,
    key: spec_fn(ProcessView) -> Option<K::V>,
    res: Seq<Bucket<K>>,
) -> bool {
    let ids = distinct_keys(ps.map_values(key));
    &&& res.len() == ids.len()
    &&& forall|j: int|
        0 <= j < res.len() ==> {
            &&& (#[trigger] res[j]).key@ == ids[j]
            &&& views(res[j].members@) == ps.filter(with_key(key, ids[j]))
            &&& res[j].total_memory == mem_total(ps.filter(with_key(key, ids[j])))
            &&& res[j].first < ps.len()
            &&& key(ps[res[j].first as int]) == Some(ids[j])
        }
}

/// Sorts `processes` into groups by their keys.
pub(crate) fn bucket<K: GroupKey>(
    processes: &[ProcessInfo],
    keys: &Vec<Option<K>>,
    Ghost(key): Ghost<spec_fn(ProcessView) -> Option<K::V>>,
) -> (res: Vec<Bucket<K>>)
    requires
        keys@.len() == processes@.len(),
        forall|i: int| 0 <= i < keys@.len() ==> key_view(#[trigger] keys@[i]) == key(processes@[i]@),
        mem_total(views(processes@)) <= u64::MAX,
    ensures
        bucketed(views(processes@), key, res@),
{
    let ghost pv = views(processes@);
    let ghost ks = pv.map_values(key);
    let mut groups: Vec<Bucket<K>> = Vec::new();
    let n = processes.len();
    let mut i: usize = 0;
    while i < n
        invariant
            n == processes@.len() == keys@.len() == pv.len() == ks.len(),
            pv == views(processes@),
            ks == pv.map_values(key),
            forall|m: int| 0 <= m < keys@.len() ==> key_view(#[trigger] keys@[m]) == key(processes@[m]@),
            mem_total(pv) <= u64::MAX,
            i <= n,
            groups.len() == distinct_keys(ks.take(i as int)).len(),
            forall|j: int|
                0 <= j < groups.len() ==> {
                    &&& (#[trigger] groups@[j]).key@ == distinct_keys(ks.take(i as int))[j]
                    &&& views(groups@[j].members@) == pv.take(i as int).filter(
                        with_key(key, distinct_keys(ks.take(i as int))[j]),
                    )
                    &&& groups@[j].total_memory == mem_total(
                        pv.take(i as int).filter(with_key(key, distinct_keys(ks.take(i as int))[j])),
                    )
                    &&& groups@[j].first < i
                    &&& key(pv[groups@[j].first as int]) == Some(distinct_keys(ks.take(i as int))[j])
                },
        decreases n - i,
    {
        let ghost ids = distinct_keys(ks.take(i as int));
        let ghost p = pv[i as int];
        proof {
            assert(ks.take(i + 1).drop_last() =~= ks.take(i as int));
            assert(ks.take(i + 1).last() == ks[i as int]);
            assert(ks[i as int] == key(p));
            lemma_distinct_keys(ks.take(i as int));
            lemma_mem_take_le(pv, i + 1);
        }
        match &keys[i] {
            None => {
                proof {
                    assert(distinct_keys(ks.take(i + 1)) == ids);
                    assert forall|m: int| 0 <= m < groups.len() implies {
                        &&& (#[trigger] groups@[m]).key@ == ids[m]
                        &&& views(groups@[m].members@) == pv.take(i + 1).filter(with_key(key, ids[m]))
                        &&& groups@[m].total_memory == mem_total(
                            pv.take(i + 1).filter(with_key(key, ids[m])),
                        )
                        &&& groups@[m].first < i + 1
                        &&& key(pv[groups@[m].first as int]) == Some(ids[m])
                    } by {
                        lemma_filter_take_step(pv, i as int, with_key(key, ids[m]));
                    }
                }
            },
            Some(k) => {
                let mut j: usize = 0;
                let mut found = false;
                while j < groups.len() && !found
                    invariant
                        j <= groups.len(),
                        groups.len() == ids.len(),
                        forall|m: int| 0 <= m < groups.len() ==> (#[trigger] groups@[m]).key@ == ids[m],
                        forall|m: int| 0 <= m < j ==> ids[m] != k@,
                        found ==> j < groups.len() && ids[j as int] == k@,
                    decreases groups.len() - j + (if found { 0int } else { 1int }),
                {
                    if groups[j].key.same(k) {
                        found = true;
                    } else {
                        j += 1;
                    }
                }
                let proc_copy = processes[i].duplicate();
                if found {
                    proof {
                        assert(ids.contains(k@));
                        assert(distinct_keys(ks.take(i + 1)) == ids);
                        lemma_filter_take_step(pv, i as int, with_key(key, ids[j as int]));
                        lemma_mem_filter_le(pv.take(i + 1), with_key(key, ids[j as int]));
                        lemma_mem_push(pv.take(i as int).filter(with_key(key, ids[j as int])), p);
                    }
                    let ghost before = groups@;
                    groups[j].total_memory = groups[j].total_memory + processes[i].memory_usage;
                    groups[j].members.push(proc_copy);
                    proof {
                        assert(views(groups@[j as int].members@) =~= views(
                            before[j as int].members@,
                        ).push(p));
                        assert forall|m: int| 0 <= m < groups.len() implies {
                            &&& (#[trigger] groups@[m]).key@ == ids[m]
                            &&& views(groups@[m].members@) == pv.take(i + 1).filter(
                                with_key(key, ids[m]),
                            )
                            &&& groups@[m].total_memory == mem_total(
                                pv.take(i + 1).filter(with_key(key, ids[m])),
                            )
                            &&& groups@[m].first < i + 1
                            &&& key(pv[groups@[m].first as int]) == Some(ids[m])
                        } by {
                            lemma_filter_take_step(pv, i as int, with_key(key, ids[m]));
                            if m != j {
                                assert(groups@[m] == before[m]);
                                assert(ids[m] != ids[j as int]);
                            }
                        }
                    }
                } else {
                    proof {
                        assert(!ids.contains(k@));
                        assert(distinct_keys(ks.take(i + 1)) == ids.push(k@));
                        assert forall|m: int| 0 <= m < pv.take(i as int).len() implies !with_key(
                            key,
                            k@,
                        )(#[trigger] pv.take(i as int)[m]) by {
                            assert(ks.take(i as int)[m] == key(pv[m]));
                            if key(pv[m]) == Some(k@) {
                                assert(ks.take(i as int)[m] == Some(k@));
                            }
                        }
                        lemma_filter_none(pv.take(i as int), with_key(key, k@));
                        lemma_mem_push(Seq::<ProcessView>::empty(), p);
                        assert(Seq::<ProcessView>::empty().push(p) =~= seq![p]);
                        assert(p.memory_usage <= mem_total(pv.take(i + 1))) by {
                            lemma_filter_take_step(pv, i as int, with_key(key, k@));
                            lemma_mem_filter_le(pv.take(i + 1), with_key(key, k@));
                        }
                    }
                    let mut members: Vec<ProcessInfo> = Vec::new();
                    let mem = processes[i].memory_usage;
                    members.push(proc_copy);
                    let b = Bucket { key: k.copy_key(), members, total_memory: mem, first: i };
                    groups.push(b);
                    proof {
                        let ids2 = ids.push(k@);
                        assert(views(groups@[ids.len() as int].members@) =~= seq![p]);
                        assert forall|m: int| 0 <= m < groups.len() implies {
                            &&& (#[trigger] groups@[m]).key@ == ids2[m]
                            &&& views(groups@[m].members@) == pv.take(i + 1).filter(
                                with_key(key, ids2[m]),
                            )
                            &&& groups@[m].total_memory == mem_total(
                                pv.take(i + 1).filter(with_key(key, ids2[m])),
                            )
                            &&& groups@[m].first < i + 1
                            &&& key(pv[groups@[m].first as int]) == Some(ids2[m])
                        } by {
                            lemma_filter_take_step(pv, i as int, with_key(key, ids2[m]));
                            if m < ids.len() {
                                assert(ids2[m] == ids[m]);
                                assert(ids[m] != k@);
                            } else {
                                assert(ids2[m] == k@);
                                assert(pv.take(i + 1).filter(with_key(key, k@)) =~= seq![p]);
                            }
                        }
                    }
                }
            },
        }
        i += 1;
    }
    proof {
        assert(pv.take(n as int) =~= pv);
        assert(ks.take(n as int) =~= ks);
    }
    groups
}

/// The groups of `processes` under `kind`, from its buckets.
fn into_groups(buckets: Vec<Bucket<String>>, kind: &GroupType, Ghost(ps): Ghost<Seq<ProcessView>>) -> (res: Vec<ProcessGroup>)
    requires
        bucketed(ps, group_key_fn(kind@), buckets@),
    ensures
        is_grouping(ps, kind@, res@),
{
    let ghost all = buckets@;
    let mut rest = buckets;
    let mut res: Vec<ProcessGroup> = Vec::new();
    let n = rest.len();
    let mut j: usize = 0;
    while j < n
        invariant
            n == all.len(),
            j <= n,
            rest@ == all.skip(j as int),
            res.len() == j,
            forall|m: int|
                0 <= m < j ==> {
                    &&& (#[trigger] res@[m]).group_type@ == kind@
                    &&& res@[m].group_id@ == all[m].key@
                    &&& res@[m].processes@ == all[m].members@
                    &&& res@[m].total_memory == all[m].total_memory
                },
        decreases n - j,
    {
        let b = rest.remove(0);
        assert(b == all[j as int]);
        assert(rest@ =~= all.skip(j + 1));
        res.push(
            ProcessGroup {
                group_type: copy_group_type(kind),
                group_id: b.key,
                processes: b.members,
                total_memory: b.total_memory,
            },
        );
        j += 1;
    }
    res
}

/// `type:inode`, the ID of a namespace group.
fn namespace_group_id(namespace_type: &str, id: u64) -> (res: String)
    ensures
        res@ == namespace_type@ + ":"@ + decimal(id as nat),
{
    let mut r = owned(namespace_type);
    push_str(&mut r, ":");
    let d = decimal_string(id);
    push_str(&mut r, d.as_str());
    r
}

/// The ways of grouping processes: by cgroup, container, namespace or user.
pub struct ProcessGroupManager;

impl ProcessGroupManager {
    /// Groups processes by cgroup; those without one form the group `No cgroup`.
    pub fn group_by_cgroup(processes: &[ProcessInfo]) -> (res: Vec<ProcessGroup>)
        requires
            mem_total(views(processes@)) <= u64::MAX,
        ensures
            is_grouping(views(processes@), GroupKind::Cgroup, res@),
    {
        let mut keys: Vec<Option<String>> = Vec::new();
        let mut i: usize = 0;
        while i < processes.len()
            invariant
                i <= processes.len(),
                keys@.len() == i,
                forall|m: int|
                    0 <= m < i ==> key_view(#[trigger] keys@[m]) == group_key(
                        GroupKind::Cgroup,
                        processes@[m]@,
                    ),
            decreases processes.len() - i,
        {
            let k = match &processes[i].cgroup {
                Some(c) => c.clone(),
                None => owned("No cgroup"),
            };
            keys.push(Some(k));
            i += 1;
        }
        let b = bucket(processes, &keys, Ghost(group_key_fn(GroupKind::Cgroup)));
        into_groups(b, &GroupType::Cgroup, Ghost(views(processes@)))
    }

    /// Groups processes by container; those outside containers form the group
    /// `No container`.
    pub fn group_by_container(processes: &[ProcessInfo]) -> (res: Vec<ProcessGroup>)
        requires
            mem_total(views(processes@)) <= u64::MAX,
        ensures
            is_grouping(views(processes@), GroupKind::Container, res@),
    {
        let mut keys: Vec<Option<String>> = Vec::new();
        let mut i: usize = 0;
        while i < processes.len()
            invariant
                i <= processes.len(),
                keys@.len() == i,
                forall|m: int|
                    0 <= m < i ==> key_view(#[trigger] keys@[m]) == group_key(
                        GroupKind::Container,
                        processes@[m]@,
                    ),
            decreases processes.len() - i,
        {
            let k = match &processes[i].container_id {
                Some(c) => c.clone(),
                None => owned("No container"),
            };
            keys.push(Some(k));
            i += 1;
        }
        let b = bucket(processes, &keys, Ghost(group_key_fn(GroupKind::Container)));
        into_groups(b, &GroupType::Container, Ghost(views(processes@)))
    }

    /// Groups processes by the name of their user; those whose user is not known
    /// form the group `Unknown`.
    pub fn group_by_username(processes: &[ProcessInfo]) -> (res: Vec<ProcessGroup>)
        requires
            mem_total(views(processes@)) <= u64::MAX,
        ensures
            is_grouping(views(processes@), GroupKind::Username, res@),
    {
        let mut keys: Vec<Option<String>> = Vec::new();
        let mut i: usize = 0;
        while i < processes.len()
            invariant
                i <= processes.len(),
                keys@.len() == i,
                forall|m: int|
                    0 <= m < i ==> key_view(#[trigger] keys@[m]) == group_key(
                        GroupKind::Username,
                        processes@[m]@,
                    ),
            decreases processes.len() - i,
        {
            let k = match &processes[i].user {
                Some(u) => u.clone(),
                None => owned("Unknown"),
            };
            keys.push(Some(k));
            i += 1;
        }
        let b = bucket(processes, &keys, Ghost(group_key_fn(GroupKind::Username)));
        into_groups(b, &GroupType::Username, Ghost(views(processes@)))
    }

    /// Groups processes by their namespace of type `namespace_type`, one group
    /// per inode number, named `type:inode`. A process with no namespace of that
    /// type (its `/proc/<pid>/ns` could not be read) is left out.
    pub fn group_by_namespace(processes: &[ProcessInfo], namespace_type: &str) -> (res: Vec<
        ProcessGroup,
    >)
        requires
            mem_total(views(processes@)) <= u64::MAX,
        ensures
            is_grouping(views(processes@), GroupKind::Namespace(namespace_type@), res@),
    {
        let mut keys: Vec<Option<String>> = Vec::new();
        let mut i: usize = 0;
        while i < processes.len()
            invariant
                i <= processes.len(),
                keys@.len() == i,
                forall|m: int|
                    0 <= m < i ==> key_view(#[trigger] keys@[m]) == group_key(
                        GroupKind::Namespace(namespace_type@),
                        processes@[m]@,
                    ),
            decreases processes.len() - i,
        {
            let k = match lookup_namespace(&processes[i].namespace_ids, namespace_type) {
                Some(id) => Some(namespace_group_id(namespace_type, id)),
                None => None,
            };
            keys.push(k);
            i += 1;
        }
        let kind = GroupType::Namespace(owned(namespace_type));
        let b = bucket(processes, &keys, Ghost(group_key_fn(kind@)));
        into_groups(b, &kind, Ghost(views(processes@)))
    }
}

// ---------------------------------------------------------------------------
// Laws of grouping
// ---------------------------------------------------------------------------

/// Grouping partitions the processes: group IDs are distinct, every member of
/// a group has that group's key, and every process that has a key is a member
/// of the group with that key.
pub proof fn lemma_grouping_partitions(
    ps: Seq<ProcessView>,
    kind: GroupKind,
    groups: Seq<ProcessGroup>,
    i: int,
)
    requires
        is_grouping(ps, kind, groups),
        0 <= i < ps.len(),
    ensures
        forall|a: int, b: int|
            0 <= a < b < groups.len() ==> groups[a].group_id@ != groups[b].group_id@,
        forall|j: int, m: int|
            0 <= j < groups.len() && 0 <= m < groups[j].processes@.len() ==> group_key(
                kind,
                views(groups[j].processes@)[m],
            ) == Some(groups[j].group_id@),
        group_key(kind, ps[i]) matches Some(k) ==> exists|j: int|
            0 <= j < groups.len() && groups[j].group_id@ == k && views(
                groups[j].processes@,
            ).contains(ps[i]),
{
    let key = group_key_fn(kind);
    let ks = ps.map_values(key);
    let ids = distinct_keys(ks);
    lemma_distinct_keys(ks);
    assert forall|j: int, m: int|
        0 <= j < groups.len() && 0 <= m < groups[j].processes@.len() implies group_key(
            kind,
            views(groups[j].processes@)[m],
        ) == Some(groups[j].group_id@) by {
        assert(views(groups[j].processes@) == ps.filter(with_key(key, ids[j])));
        ps.lemma_filter_pred(with_key(key, ids[j]), m);
    }
    if let Some(k) = group_key(kind, ps[i]) {
        assert(ks[i] == Some(k));
        assert(ids.contains(k));
        let j = choose|j: int| 0 <= j < ids.len() && ids[j] == k;
        assert(groups[j].group_id@ == k);
        ps.lemma_filter_contains(with_key(key, k), i);
    }
}

// ---------------------------------------------------------------------------
// Namespace types
// ---------------------------------------------------------------------------

/// `a` sorts before `b` as `String`s do: by their first differing character,
/// or the shorter first when one is a prefix of the other.
pub open spec fn lex_lt(a: Seq<char>, b: Seq<char>) -> bool
    decreases a.len(),
{
    if a.len() == 0 {
        b.len() > 0
    } else if b.len() == 0 {
        false
    } else if a[0] != b[0] {
        a[0] < b[0]
    } else {
        lex_lt(a.drop_first(), b.drop_first())
    }
}

pub proof fn lemma_lex_irreflexive(a: Seq<char>)
    ensures
        !lex_lt(a, a),
    decreases a.len(),
{
    if a.len() > 0 {
        lemma_lex_irreflexive(a.drop_first());
    }
}

pub proof fn lemma_lex_total(a: Seq<char>, b: Seq<char>)
    ensures
        a == b || lex_lt(a, b) || lex_lt(b, a),
        !(lex_lt(a, b) && lex_lt(b, a)),
    decreases a.len(),
{
    if a.len() > 0 && b.len() > 0 {
        lemma_lex_total(a.drop_first(), b.drop_first());
        if a[0] == b[0] && a.drop_first() == b.drop_first() {
            assert(a =~= b) by {
                assert forall|k: int| 0 <= k < a.len() implies a[k] == b[k] by {
                    if k > 0 {
                        assert(a[k] == a.drop_first()[k - 1]);
                        assert(b[k] == b.drop_first()[k - 1]);
                    }
                }
            }
        }

    } else if a.len() == 0 && b.len() == 0 {
        assert(a =~= b);
    }
}

pub proof fn lemma_lex_transitive(a: Seq<char>, b: Seq<char>, c: Seq<char>)
    requires
        lex_lt(a, b),
        lex_lt(b, c),
    ensures
        lex_lt(a, c),
    decreases a.len(),
{
    if a.len() > 0 && b.len() > 0 && c.len() > 0 {
        if a[0] == b[0] && b[0] == c[0] {
            lemma_lex_transitive(a.drop_first(), b.drop_first(), c.drop_first());
        }
    }
}

/// Comparing after an equal prefix of length `i`.
proof fn lemma_lex_skip(a: Seq<char>, b: Seq<char>, i: int)
    requires
        0 <= i <= a.len(),
        i <= b.len(),
        a.take(i) == b.take(i),
    ensures
        lex_lt(a, b) == lex_lt(a.skip(i), b.skip(i)),
    decreases i,
{
    if i > 0 {
        assert(a[0] == a.take(i)[0]);
        assert(b[0] == b.take(i)[0]);
        assert(a.drop_first().take(i - 1) =~= a.take(i).drop_first());
        assert(b.drop_first().take(i - 1) =~= b.take(i).drop_first());
        lemma_lex_skip(a.drop_first(), b.drop_first(), i - 1);
        assert(a.drop_first().skip(i - 1) =~= a.skip(i));
        assert(b.drop_first().skip(i - 1) =~= b.skip(i));
    } else {
        assert(a.skip(0) =~= a);
        assert(b.skip(0) =~= b);
    }
}

/// Whether `a` sorts before `b`.
pub fn lex_less(a: &str, b: &str) -> (r: bool)
    ensures
        r == lex_lt(a@, b@),
{
    let av = chars_of(a);
    let bv = chars_of(b);
    let mut i: usize = 0;
    while i < av.len() && i < bv.len() && av[i] == bv[i]
        invariant
            i <= av.len(),
            i <= bv.len(),
            av@.take(i as int) == bv@.take(i as int),
        decreases av.len() - i,
    {
        assert(av@.take(i + 1) =~= av@.take(i as int).push(av@[i as int]));
        assert(bv@.take(i + 1) =~= bv@.take(i as int).push(bv@[i as int]));
        i += 1;
    }
    proof {
        lemma_lex_skip(av@, bv@, i as int);
        if i < av.len() && i < bv.len() {
            assert(av@.skip(i as int)[0] == av@[i as int]);
            assert(bv@.skip(i as int)[0] == bv@[i as int]);
        }
    }
    if i == av.len() {
        i < bv.len()
    } else if i == bv.len() {
        false
    } else {
        av[i] < bv[i]
    }
}

/// The namespace types of the processes, in order, with repetitions.
pub open spec fn all_types(ps: Seq<ProcessView>) -> Seq<Seq<char>>
    decreases ps.len(),
{
    if ps.len() == 0 {
        seq![]
    } else {
        all_types(ps.drop_last()) + ps.last().namespace_ids.map_values(
            |b: (Seq<char>, u64)| b.0,
        )
    }
}

pub open spec fn sorted_strictly(s: Seq<Seq<char>>) -> bool {
    forall|a: int, b: int| 0 <= a < b < s.len() ==> lex_lt(s[a], s[b])
}

pub open spec fn str_views(v: Seq<String>) -> Seq<Seq<char>> {
    v.map_values(|x: String| x@)
}

/// Inserts `t` into the strictly sorted `res`, unless it is there already.
pub(crate) fn insert_sorted(res: &mut Vec<String>, t: &str)
    requires
        sorted_strictly(str_views(old(res)@)),
    ensures
        sorted_strictly(str_views(final(res)@)),
        forall|x: Seq<char>|
            str_views(final(res)@).contains(x) <==> (str_views(old(res)@).contains(x) || x == t@),
{
    let ghost v0 = str_views(res@);
    let mut pos: usize = 0;
    while pos < res.len() && lex_less(res[pos].as_str(), t)
        invariant
            pos <= res.len(),
            v0 == str_views(res@),
            sorted_strictly(v0),
            forall|m: int| 0 <= m < pos ==> lex_lt(#[trigger] v0[m], t@),
        decreases res.len() - pos,
    {
        pos += 1;
    }
    if pos < res.len() && str_eq(res[pos].as_str(), t) {
        assert(v0[pos as int] == t@);
        return;
    }
    proof {
        if pos < res.len() {
            lemma_lex_total(v0[pos as int], t@);
            assert(lex_lt(t@, v0[pos as int]));
            assert forall|m: int| pos <= m < v0.len() implies lex_lt(t@, #[trigger] v0[m]) by {
                if m > pos {
                    lemma_lex_transitive(t@, v0[pos as int], v0[m]);
                }
            }
        }
    }
    res.insert(pos, owned(t));
    let ghost v1 = str_views(res@);
    proof {
        assert(v1 =~= v0.insert(pos as int, t@));
        assert forall|a: int, b: int| 0 <= a < b < v1.len() implies lex_lt(v1[a], v1[b]) by {
            if b < pos {
            } else if b == pos {
                assert(v1[a] == v0[a]);
            } else if a < pos {
                assert(v1[b] == v0[b - 1]);
                lemma_lex_transitive(v0[a], t@, v0[b - 1]);
            } else if a == pos {
                assert(v1[b] == v0[b - 1]);
            } else {
                assert(v1[a] == v0[a - 1]);
                assert(v1[b] == v0[b - 1]);
            }
        }
        assert forall|x: Seq<char>| v1.contains(x) <==> (v0.contains(x) || x == t@) by {
            if v1.contains(x) {
                let k = choose|k: int| 0 <= k < v1.len() && v1[k] == x;
                if k < pos {
                    assert(v0[k] == x);
                } else if k > pos {
                    assert(v0[k - 1] == x);
                }
            }
            if v0.contains(x) {
                let k = choose|k: int| 0 <= k < v0.len() && v0[k] == x;
                if k < pos {
                    assert(v1[k] == x);
                } else {
                    assert(v1[k + 1] == x);
                }
            }
            if x == t@ {
                assert(v1[pos as int] == x);
            }
        }
    }
}

impl ProcessGroupManager {
    /// Every namespace type that any of the processes has, once each, sorted.
    pub fn get_available_namespace_types(processes: &[ProcessInfo]) -> (res: Vec<String>)
        ensures
            sorted_strictly(str_views(res@)),
            forall|t: Seq<char>|
                str_views(res@).contains(t) <==> all_types(views(processes@)).contains(t),
    {
        let ghost pv = views(processes@);
        let mut res: Vec<String> = Vec::new();
        let mut i: usize = 0;
        while i < processes.len()
            invariant
                i <= processes.len(),
                pv == views(processes@),
                sorted_strictly(str_views(res@)),
                forall|t: Seq<char>|
                    str_views(res@).contains(t) <==> all_types(pv.take(i as int)).contains(t),
            decreases processes.len() - i,
        {
            let ids = &processes[i].namespace_ids;
            let ghost names = pv[i as int].namespace_ids.map_values(|b: (Seq<char>, u64)| b.0);
            assert(pv[i as int] == processes@[i as int]@);
            let mut j: usize = 0;
            while j < ids.len()
                invariant
                    j <= ids.len(),
                    names.len() == ids.len(),
                    names == crate::procinfo::pair_views(ids@).map_values(|b: (Seq<char>, u64)| b.0),
                    sorted_strictly(str_views(res@)),
                    forall|t: Seq<char>|
                        str_views(res@).contains(t) <==> (all_types(pv.take(i as int))
                            + names.take(j as int)).contains(t),
                decreases ids.len() - j,
            {
                assert(names[j as int] == ids@[j as int].0@);
                insert_sorted(&mut res, ids[j].0.as_str());
                proof {
                    let pre = all_types(pv.take(i as int));
                    assert(pre + names.take(j + 1) =~= (pre + names.take(j as int)).push(names[j as int]));
                    assert forall|t: Seq<char>|
                        (pre + names.take(j as int)).push(names[j as int]).contains(t) <==> ((pre
                            + names.take(j as int)).contains(t) || t == names[j as int]) by {
                        let s0 = pre + names.take(j as int);
                        if s0.push(names[j as int]).contains(t) {
                            let k = choose|k: int| 0 <= k < s0.len() + 1 && s0.push(names[j as int])[k] == t;
                            if k < s0.len() {
                                assert(s0[k] == t);
                            }
                        }
                        if s0.contains(t) {
                            let k = choose|k: int| 0 <= k < s0.len() && s0[k] == t;
                            assert(s0.push(names[j as int])[k] == t);
                        }
                        if t == names[j as int] {
                            assert(s0.push(names[j as int])[s0.len() as int] == t);
                        }
                    }
                }
                j += 1;
            }
            proof {
                assert(pv.take(i + 1).drop_last() =~= pv.take(i as int));
                assert(pv.take(i + 1).last() == pv[i as int]);
                assert(names.take(ids.len() as int) =~= names);
                assert(all_types(pv.take(i + 1)) == all_types(pv.take(i as int)) + names);
            }
            i += 1;
        }
        assert(pv.take(processes.len() as int) =~= pv);
        res
    }
}

} // verus!
