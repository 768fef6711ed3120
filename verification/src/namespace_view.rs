//! Namespace groups: the processes that share a namespace of a given type.

use vstd::prelude::*;
use crate::groups::{bucket, bucketed, distinct_keys, mem_total, with_key, Bucket};
use crate::procinfo::{ProcessInfo, ProcessView, lookup_namespace, ns_lookup, views};
use crate::text::owned;

verus! {

/// The processes in one namespace, with their memory in total.
pub struct NamespaceGroup {
    pub namespace_type: String,
    pub namespace_id: u64,
    pub processes: Vec<ProcessInfo>,
    pub memory_usage: u64,
}

impl NamespaceGroup {
    /// An empty group.
    pub fn new(namespace_type: String, namespace_id: u64) -> (g: Self)
        ensures
            g.namespace_type == namespace_type,
            g.namespace_id == namespace_id,
            g.processes@.len() == 0,
            g.memory_usage == 0,
    {
        NamespaceGroup { namespace_type, namespace_id, processes: Vec::new(), memory_usage: 0 }
    }

    /// Adds a process to the group.
    pub fn add_process(&mut self, process: ProcessInfo)
        requires
            old(self).memory_usage + process.memory_usage <= u64::MAX,
        ensures
            final(self).processes@ == old(self).processes@.push(process),
            final(self).memory_usage == old(self).memory_usage + process.memory_usage,
            final(self).namespace_type == old(self).namespace_type,
            final(self).namespace_id == old(self).namespace_id,
    {
        self.memory_usage = self.memory_usage + process.memory_usage;
        self.processes.push(process);
    }

    pub fn process_count(&self) -> (n: usize)
        ensures
            n == self.processes@.len(),
    {
        self.processes.len()
    }
}

/// The inode of the namespace of type `t` that a process is in, if known.
pub open spec fn ns_key_fn(t: Seq<char>) -> spec_fn(ProcessView) -> Option<u64> {
    |p: ProcessView| ns_lookup(p.namespace_ids, t)
}

/// `groups` are the namespaces of type `t` of `ps`: one per inode, in order of
/// first appearance, each with its members in order and their memory in
/// total. Processes with no namespace of type `t` are in none.
pub open spec fn is_namespace_grouping(
    ps: Seq<ProcessView>,
    t: Seq<char>,
    groups: Seq<NamespaceGroup>,
) -> bool {
    let ids = distinct_keys(ps.map_values(ns_key_fn(t)));
    &&& groups.len() == ids.len()
    &&& forall|j: int|
        0 <= j < groups.len() ==> {
            &&& (#[trigger] groups[j]).namespace_type@ == t
            &&& groups[j].namespace_id == ids[j]
            &&& views(groups[j].processes@) == ps.filter(with_key(ns_key_fn(t), ids[j]))
            &&& groups[j].memory_usage == mem_total(ps.filter(with_key(ns_key_fn(t), ids[j])))
        }
}

/// The inode of each process's namespace of type `t`.
fn namespace_keys(processes: &[ProcessInfo], t: &str) -> (keys: Vec<Option<u64>>)
    ensures
        keys@.len() == processes@.len(),
        forall|i: int|
            0 <= i < keys@.len() ==> crate::groups::key_view(#[trigger] keys@[i]) == (ns_key_fn(
                t@,
            ))(processes@[i]@),
{
    let mut keys: Vec<Option<u64>> = Vec::new();
    let mut i: usize = 0;
    while i < processes.len()
        invariant
            i <= processes.len(),
            keys@.len() == i,
            forall|m: int|
                0 <= m < i ==> crate::groups::key_view(#[trigger] keys@[m]) == (ns_key_fn(t@))(
                    processes@[m]@,
                ),
        decreases processes.len() - i,
    {
        let k = lookup_namespace(&processes[i].namespace_ids, t);
        keys.push(k);
        i += 1;
    }
    keys
}

/// The namespaces of type `namespace_type` that the processes are in.
pub fn get_namespace_groups(processes: &[ProcessInfo], namespace_type: &str) -> (res: Vec<
    NamespaceGroup,
>)
    requires
        mem_total(views(processes@)) <= u64::MAX,
    ensures
        is_namespace_grouping(views(processes@), namespace_type@, res@),
{
    let keys = namespace_keys(processes, namespace_type);
    let buckets = bucket(processes, &keys, Ghost(ns_key_fn(namespace_type@)));
    let ghost all = buckets@;
    let mut rest = buckets;
    let mut res: Vec<NamespaceGroup> = Vec::new();
    let n = rest.len();
    let mut j: usize = 0;
    while j < n
        invariant
            n == all.len(),
            j <= n,
            rest@ == all.skip(j as int),
            res.len() == j,
            forall|m: int|
                0 <= m < j ==> {
                    &&& (#[trigger] res@[m]).namespace_type@ == namespace_type@
                    &&& res@[m].namespace_id == all[m].key
                    &&& res@[m].processes@ == all[m].members@
                    &&& res@[m].memory_usage == all[m].total_memory
                },
        decreases n - j,
    {
        let b: Bucket<u64> = rest.remove(0);
        assert(b == all[j as int]);
        assert(rest@ =~= all.skip(j + 1));
        res.push(
            NamespaceGroup {
                namespace_type: owned(namespace_type),
                namespace_id: b.key,
                processes: b.members,
                memory_usage: b.total_memory,
            },
        );
        j += 1;
    }
    res
}

/// The processes in the namespace of type `namespace_type` with inode
/// `namespace_id`, or none when no process is in it.
pub fn get_namespace_group_details(
    processes: &[ProcessInfo],
    namespace_type: &str,
    namespace_id: u64,
) -> (res: Option<NamespaceGroup>)
    requires
        mem_total(views(processes@)) <= u64::MAX,
    ensures
        ({
            let members = views(processes@).filter(
                with_key(ns_key_fn(namespace_type@), namespace_id),
            );
            if members.len() > 0 {
                res matches Some(g) && g.namespace_type@ == namespace_type@ && g.namespace_id
                    == namespace_id && views(g.processes@) == members && g.memory_usage
                    == mem_total(members)
            } else {
                res is None
            }
        }),
{
    let ghost pv = views(processes@);
    let ghost f = with_key(ns_key_fn(namespace_type@), namespace_id);
    let mut group = NamespaceGroup::new(owned(namespace_type), namespace_id);
    let mut i: usize = 0;
    while i < processes.len()
        invariant
            i <= processes.len(),
            pv == views(processes@),
            f == with_key(ns_key_fn(namespace_type@), namespace_id),
            mem_total(pv) <= u64::MAX,
            group.namespace_type@ == namespace_type@,
            group.namespace_id == namespace_id,
            views(group.processes@) == pv.take(i as int).filter(f),
            group.memory_usage == mem_total(pv.take(i as int).filter(f)),
        decreases processes.len() - i,
    {
        proof {
            crate::groups::lemma_filter_take_step(pv, i as int, f);
        }
        let id = lookup_namespace(&processes[i].namespace_ids, namespace_type);
        assert(pv[i as int] == processes@[i as int]@);
        assert(pv[i as int].namespace_ids == crate::procinfo::pair_views(
            processes@[i as int].namespace_ids@,
        ));
        assert((ns_key_fn(namespace_type@))(pv[i as int]) == id);
        assert(f(pv[i as int]) == (id == Some(namespace_id)));
        if id == Some(namespace_id) {
            proof {
                crate::groups::lemma_mem_take_le(pv, i + 1);
                crate::groups::lemma_mem_filter_le(pv.take(i + 1), f);
                crate::groups::lemma_mem_push(pv.take(i as int).filter(f), pv[i as int]);
            }
            let ghost before = group.processes@;
            group.add_process(processes[i].duplicate());
            assert(views(group.processes@) =~= views(before).push(pv[i as int]));
        }
        i += 1;
    }
    assert(pv.take(processes.len() as int) =~= pv);
    if group.process_count() > 0 {
        Some(group)
    } else {
        None
    }
}

} // verus!
