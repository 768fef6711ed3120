//! Containers: the processes that run in each container, and container names
//! as `docker ps` reports them.
//!
//! Running `docker` is the caller's work; these functions read its output.

use vstd::prelude::*;
use crate::filter::{byte_len, char_width};
use crate::groups::{bucket, bucketed, distinct_keys, mem_total, with_key, Bucket};
use crate::procinfo::{ProcessInfo, ProcessView, views};
use crate::text::{
    chars_of, index_of, lemma_index_of, line_bounds, lines, owned, push_str, starts_with,
    string_of,
};

verus! {

// ---------------------------------------------------------------------------
// Short container IDs
// ---------------------------------------------------------------------------

/// How many leading characters of `c` fit in `n` bytes of UTF-8.
pub open spec fn fit_count(c: Seq<char>, n: int) -> nat
    decreases c.len(),
{
    if c.len() == 0 || char_width(c[0]) > n {
        0
    } else {
        1 + fit_count(c.drop_first(), n - char_width(c[0]))
    }
}

/// The short form of a container ID, `&id[..12]` for an ID of more than 12
/// bytes: its first 12 bytes.
pub open spec fn cut12(c: Seq<char>) -> Seq<char> {
    if byte_len(c) <= 12 {
        c
    } else {
        c.take(fit_count(c, 12) as int)
    }
}

/// `&id[..12]` is defined: the ID has at most 12 bytes, or its 12th byte ends
/// a character.
pub open spec fn cut12_ok(c: Seq<char>) -> bool {
    byte_len(c) <= 12 || byte_len(c.take(fit_count(c, 12) as int)) == 12
}

proof fn lemma_byte_len_take_le(t: Seq<char>, k: int)
    requires
        0 <= k <= t.len(),
    ensures
        byte_len(t.take(k)) <= byte_len(t),
    decreases t.len() - k,
{
    if k < t.len() {
        lemma_byte_len_take_le(t, k + 1);
        assert(t.take(k + 1).drop_last() =~= t.take(k));
    } else {
        assert(t.take(k) =~= t);
    }
}

/// The length of the short form of `v`, when it is defined.
fn cut12_len(v: &Vec<char>) -> (res: Option<usize>)
    ensures
        res is Some <==> cut12_ok(v@),
        res matches Some(j) ==> j <= v.len() && v@.take(j as int) == cut12(v@),
{
    let n = v.len();
    let mut acc: u64 = 0;
    let mut j: usize = 0;
    let mut stop = false;
    assert(v@.skip(0) =~= v@);
    while j < n && !stop
        invariant
            j <= n == v.len(),
            acc <= 12,
            acc == byte_len(v@.take(j as int)),
            fit_count(v@, 12) == j + fit_count(v@.skip(j as int), 12 - acc),
            stop ==> j < n && char_width(v@[j as int]) > 12 - acc,
        decreases n - j + (if stop { 0int } else { 1int }),
    {
        let c = v[j];
        let u = c as u32;
        let w: u64 = if u < 0x80 {
            1
        } else if u < 0x800 {
            2
        } else if u < 0x10000 {
            3
        } else {
            4
        };
        assert(w == char_width(c));
        assert(v@.skip(j as int)[0] == c);
        if acc + w > 12 {
            stop = true;
        } else {
            assert(v@.skip(j as int).drop_first() =~= v@.skip(j + 1));
            assert(v@.take(j + 1).drop_last() =~= v@.take(j as int));
            acc = acc + w;
            j = j + 1;
        }
    }
    if stop {
        assert(fit_count(v@.skip(j as int), 12 - acc) == 0);
        assert(byte_len(v@) > 12) by {
            lemma_byte_len_take_le(v@, j + 1);
            assert(v@.take(j + 1).drop_last() =~= v@.take(j as int));
        }
    } else {
        assert(v@.take(n as int) =~= v@);
        assert(v@.skip(n as int).len() == 0);
    }
    if j == n {
        Some(n)
    } else if acc == 12 {
        Some(j)
    } else {
        None
    }
}

/// The short form of the ID `v`, when it is defined.
fn cut12_of(v: &Vec<char>) -> (res: Option<String>)
    ensures
        res is Some <==> cut12_ok(v@),
        res matches Some(r) ==> r@ == cut12(v@),
{
    match cut12_len(v) {
        Some(j) => {
            let r = string_of(v, 0, j);
            assert(v@.subrange(0, j as int) =~= v@.take(j as int));
            Some(r)
        },
        None => None,
    }
}

// ---------------------------------------------------------------------------
// Containers and their processes
// ---------------------------------------------------------------------------

/// A container, with the processes that run in it and their memory in total.
pub struct ContainerInfo {
    pub id: String,
    pub name: String,
    pub processes: Vec<ProcessInfo>,
    pub memory_usage: u64,
    pub start_time: Option<String>,
}

impl ContainerInfo {
    /// A container with no process yet.
    pub fn new(id: String, name: String) -> (c: Self)
        ensures
            c.id == id,
            c.name == name,
            c.processes@.len() == 0,
            c.memory_usage == 0,
            c.start_time is None,
    {
        ContainerInfo { id, name, processes: Vec::new(), memory_usage: 0, start_time: None }
    }

    /// Adds a process to the container.
    pub fn add_process(&mut self, process: ProcessInfo)
        requires
            old(self).memory_usage + process.memory_usage <= u64::MAX,
        ensures
            final(self).processes@ == old(self).processes@.push(process),
            final(self).memory_usage == old(self).memory_usage + process.memory_usage,
            final(self).id == old(self).id,
            final(self).name == old(self).name,
            final(self).start_time == old(self).start_time,
    {
        self.memory_usage = self.memory_usage + process.memory_usage;
        self.processes.push(process);
    }

    pub fn process_count(&self) -> (n: usize)
        ensures
            n == self.processes@.len(),
    {
        self.processes.len()
    }
}

/// The container a process runs in, if any.
pub open spec fn container_key_fn() -> spec_fn(ProcessView) -> Option<Seq<char>> {
    |p: ProcessView| p.container_id
}

/// The container IDs of `ps` all have a defined short form.
pub open spec fn ids_cut_ok(ps: Seq<ProcessView>) -> bool {
    forall|i: int| 0 <= i < ps.len() ==> ((#[trigger] ps[i]).container_id matches Some(c) ==> cut12_ok(c))
}

/// `res` lists the containers of `ps`: one per container ID, in order of first
/// appearance, named `container_<short ID>`, with its processes in order and
/// their memory in total.
pub open spec fn is_container_list(ps: Seq<ProcessView>, res: Seq<ContainerInfo>) -> bool {
    let ids = distinct_keys(ps.map_values(container_key_fn()));
    &&& res.len() == ids.len()
    &&& forall|j: int|
        0 <= j < res.len() ==> {
            &&& (#[trigger] res[j]).id@ == ids[j]
            &&& res[j].name@ == "container_"@ + cut12(ids[j])
            &&& views(res[j].processes@) == ps.filter(with_key(container_key_fn(), ids[j]))
            &&& res[j].memory_usage == mem_total(ps.filter(with_key(container_key_fn(), ids[j])))
            &&& res[j].start_time is None
        }
}

/// The containers that the processes run in.
pub fn get_containers(processes: &[ProcessInfo]) -> (res: Vec<ContainerInfo>)
    requires
        mem_total(views(processes@)) <= u64::MAX,
        ids_cut_ok(views(processes@)),
    ensures
        is_container_list(views(processes@), res@),
{
    let ghost pv = views(processes@);
    let mut keys: Vec<Option<String>> = Vec::new();
    let mut i: usize = 0;
    while i < processes.len()
        invariant
            i <= processes.len(),
            keys@.len() == i,
            forall|m: int|
                0 <= m < i ==> crate::groups::key_view(#[trigger] keys@[m]) == (container_key_fn())(
                    processes@[m]@,
                ),
        decreases processes.len() - i,
    {
        let k = crate::procinfo::copy_opt(&processes[i].container_id);
        keys.push(k);
        i += 1;
    }
    let buckets = bucket(processes, &keys, Ghost(container_key_fn()));
    let ghost all = buckets@;
    let mut rest = buckets;
    let mut res: Vec<ContainerInfo> = Vec::new();
    let n = rest.len();
    let mut j: usize = 0;
    while j < n
        invariant
            pv == views(processes@),
            ids_cut_ok(pv),
            bucketed(pv, container_key_fn(), all),
            n == all.len(),
            j <= n,
            rest@ == all.skip(j as int),
            res.len() == j,
            forall|m: int|
                0 <= m < j ==> {
                    &&& (#[trigger] res@[m]).id@ == all[m].key@
                    &&& res@[m].name@ == "container_"@ + cut12(all[m].key@)
                    &&& res@[m].processes@ == all[m].members@
                    &&& res@[m].memory_usage == all[m].total_memory
                    &&& res@[m].start_time is None
                },
        decreases n - j,
    {
        let b: Bucket<String> = rest.remove(0);
        assert(b == all[j as int]);
        assert(rest@ =~= all.skip(j + 1));
        assert(pv[b.first as int].container_id == Some(b.key@));
        let kv = chars_of(b.key.as_str());
        let short = match cut12_of(&kv) {
            Some(s) => s,
            None => {
                assert(false);
                owned("")
            },
        };
        let mut name = owned("container_");
        push_str(&mut name, short.as_str());
        res.push(
            ContainerInfo {
                id: b.key,
                name,
                processes: b.members,
                memory_usage: b.total_memory,
                start_time: None,
            },
        );
        j += 1;
    }
    res
}

// ---------------------------------------------------------------------------
// Container names
// ---------------------------------------------------------------------------

/// The name that a line of `docker ps --format '{{.ID}} {{.Names}}'` gives to
/// the container with short ID `short`: the line's text after its first
/// space, when the line's ID (or its short form) matches `short` or one
/// starts with the other.
pub open spec fn line_names(l: Seq<char>, short: Seq<char>) -> Option<Seq<char>> {
    match index_of(l, ' ') {
        Some(k) => {
            let id = l.take(k);
            if cut12(id) == short || starts_with(id, short) || starts_with(short, cut12(id)) {
                Some(l.skip(k + 1))
            } else {
                None
            }
        },
        None => None,
    }
}

/// The name given to `short` by the first line that names it.
pub open spec fn name_in_lines(ls: Seq<Seq<char>>, short: Seq<char>) -> Option<Seq<char>>
    decreases ls.len(),
{
    if ls.len() == 0 {
        None
    } else {
        match line_names(ls[0], short) {
            Some(n) => Some(n),
            None => name_in_lines(ls.drop_first(), short),
        }
    }
}

/// The lines read before a match all have an ID whose short form is defined.
pub open spec fn lines_cut_ok(ls: Seq<Seq<char>>, short: Seq<char>) -> bool
    decreases ls.len(),
{
    if ls.len() == 0 {
        true
    } else {
        (match index_of(ls[0], ' ') {
            Some(k) => cut12_ok(ls[0].take(k)),
            None => true,
        }) && (line_names(ls[0], short) is Some || lines_cut_ok(ls.drop_first(), short))
    }
}

/// The name of the container with ID `id`, given the output of `docker ps`
/// (`None` when docker could not be run): the name docker gives it, or
/// `container_<short ID>`.
pub open spec fn container_name(output: Option<Seq<char>>, id: Seq<char>) -> Seq<char> {
    let short = cut12(id);
    match output {
        Some(o) => match name_in_lines(lines(o), short) {
            Some(n) => n,
            None => "container_"@ + short,
        },
        None => "container_"@ + short,
    }
}

/// Finding the name does not slice an ID in the middle of a character.
pub open spec fn container_name_ok(output: Option<Seq<char>>, id: Seq<char>) -> bool {
    &&& cut12_ok(id)
    &&& output matches Some(o) ==> lines_cut_ok(lines(o), cut12(id))
}

pub open spec fn opt_str_view(o: Option<&str>) -> Option<Seq<char>> {
    match o {
        Some(s) => Some(s@),
        None => None,
    }
}

/// The name of a container; `None` exactly where an ID would be cut in the
/// middle of a character.
pub fn try_container_name(docker_output: Option<&str>, container_id: &str) -> (res: Option<String>)
    ensures
        container_name_ok(opt_str_view(docker_output), container_id@) ==> (res matches Some(r)
            && r@ == container_name(opt_str_view(docker_output), container_id@)),
        !container_name_ok(opt_str_view(docker_output), container_id@) ==> res is None,
{
    let cv = chars_of(container_id);
    let short = match cut12_of(&cv) {
        Some(s) => s,
        None => return None,
    };
    let sv = chars_of(short.as_str());
    if let Some(out) = docker_output {
        let v = chars_of(out);
        let ls = line_bounds(&v);
        let ghost all = lines(v@);
        let mut k: usize = 0;
        assert(all.skip(0) =~= all);
        while k < ls.len()
            invariant
                v@ == out@,
                opt_str_view(docker_output) == Some(out@),
                cut12_ok(container_id@),
                all == lines(v@),
                sv@ == short@,
                short@ == cut12(container_id@),
                ls.len() == all.len(),
                forall|j: int|
                    0 <= j < ls.len() ==> {
                        &&& (#[trigger] ls[j]).0 <= ls[j].1 <= v.len()
                        &&& v@.subrange(ls[j].0 as int, ls[j].1 as int) == all[j]
                    },
                k <= ls.len(),
                name_in_lines(all, short@) == name_in_lines(all.skip(k as int), short@),
                lines_cut_ok(all, short@) == lines_cut_ok(all.skip(k as int), short@),
            decreases ls.len() - k,
        {
            let (a, b) = ls[k];
            assert(ls[k as int].0 <= ls[k as int].1 <= v.len());
            let ghost l = all[k as int];
            assert(all.skip(k as int)[0] == l);
            assert(all.skip(k as int).drop_first() =~= all.skip(k + 1));
            let lv_s = string_of(&v, a, b);
            let lv = chars_of(lv_s.as_str());
            assert(lv@ == l);
            let mut sp: usize = 0;
            while sp < lv.len() && lv[sp] != ' '
                invariant
                    sp <= lv.len(),
                    forall|m: int| 0 <= m < sp ==> lv@[m] != ' ',
                decreases lv.len() - sp,
            {
                sp += 1;
            }
            proof {
                lemma_index_of(l, ' ');
            }
            if sp < lv.len() {
                assert(index_of(l, ' ') == Some(sp as int)) by {
                    if let Some(q) = index_of(l, ' ') {
                        if q < sp {
                            assert(lv@[q] != ' ');
                        }
                        if q > sp {
                            assert(l[sp as int] == ' ');
                        }
                    }
                }
                let idv_s = string_of(&lv, 0, sp);
                let idv = chars_of(idv_s.as_str());
                assert(idv@ == l.take(sp as int)) by {
                    assert(lv@.subrange(0, sp as int) =~= l.take(sp as int));
                }
                let id_short = match cut12_of(&idv) {
                    Some(s) => s,
                    None => {
                        assert(!lines_cut_ok(all.skip(k as int), short@));
                        return None;
                    },
                };
                let isv = chars_of(id_short.as_str());
                let m1 = crate::text::str_eq(id_short.as_str(), short.as_str());
                let m2 = sv.len() <= idv.len() && crate::text::range_eq(&idv, 0, sv.len(), &sv);
                let m3 = isv.len() <= sv.len() && crate::text::range_eq(&sv, 0, isv.len(), &isv);
                assert(m2 == starts_with(l.take(sp as int), short@));
                assert(m3 == starts_with(short@, cut12(l.take(sp as int))));
                assert(line_names(l, short@) == (if m1 || m2 || m3 {
                    Some(l.skip(sp + 1))
                } else {
                    None::<Seq<char>>
                }));
                if m1 || m2 || m3 {
                    let name = string_of(&lv, sp + 1, lv.len());
                    assert(lv@.subrange(sp + 1, lv.len() as int) =~= l.skip(sp + 1));
                    assert(name_in_lines(all.skip(k as int), short@) == Some(l.skip(sp + 1)));
                    return Some(name);
                }
            } else {
                assert(index_of(l, ' ') is None);
            }
            k += 1;
        }
        assert(name_in_lines(all.skip(ls.len() as int), short@) is None);
    }
    let mut name = owned("container_");
    push_str(&mut name, short.as_str());
    Some(name)
}

/// The name of a container.
pub fn get_container_name(docker_output: Option<&str>, container_id: &str) -> (res: String)
    requires
        container_name_ok(opt_str_view(docker_output), container_id@),
    ensures
        res@ == container_name(opt_str_view(docker_output), container_id@),
{
    match try_container_name(docker_output, container_id) {
        Some(n) => n,
        None => {
            assert(false);
            owned("")
        },
    }
}

/// Whether a process runs in the container with short ID `short`.
pub open spec fn in_container(short: Seq<char>) -> spec_fn(ProcessView) -> bool {
    |p: ProcessView|
        match p.container_id {
            Some(c) => cut12(c) == short,
            None => false,
        }
}

/// The container with ID `container_id` (short or full), with the processes
/// whose container has the same short ID; none when no process runs in it.
/// Its name is found in `docker_output`, the output of `docker ps` (`None`
/// when docker could not be run).
pub fn get_container_details(
    processes: &[ProcessInfo],
    container_id: &str,
    docker_output: Option<&str>,
) -> (res: Option<ContainerInfo>)
    requires
        mem_total(views(processes@)) <= u64::MAX,
        ids_cut_ok(views(processes@)),
        container_name_ok(opt_str_view(docker_output), container_id@),
    ensures
        ({
            let members = views(processes@).filter(in_container(cut12(container_id@)));
            if members.len() > 0 {
                res matches Some(g) && g.id@ == cut12(container_id@) && g.name@ == container_name(
                    opt_str_view(docker_output),
                    container_id@,
                ) && views(g.processes@) == members && g.memory_usage == mem_total(members)
                    && g.start_time is None
            } else {
                res is None
            }
        }),
{
    let ghost pv = views(processes@);
    let cv = chars_of(container_id);
    let short = match cut12_of(&cv) {
        Some(s) => s,
        None => {
            assert(false);
            owned("")
        },
    };
    let ghost f = in_container(short@);
    let name = get_container_name(docker_output, container_id);
    let mut info = ContainerInfo::new(short.clone(), name);
    let mut i: usize = 0;
    while i < processes.len()
        invariant
            i <= processes.len(),
            pv == views(processes@),
            ids_cut_ok(pv),
            f == in_container(short@),
            mem_total(pv) <= u64::MAX,
            info.id@ == short@,
            info.name@ == container_name(opt_str_view(docker_output), container_id@),
            info.start_time is None,
            views(info.processes@) == pv.take(i as int).filter(f),
            info.memory_usage == mem_total(pv.take(i as int).filter(f)),
        decreases processes.len() - i,
    {
        proof {
            crate::groups::lemma_filter_take_step(pv, i as int, f);
        }
        assert(pv[i as int] == processes@[i as int]@);
        let belongs = match &processes[i].container_id {
            Some(c) => {
                assert(cut12_ok(c@)) by {
                    assert(pv[i as int].container_id == Some(c@));
                }
                let pcv = chars_of(c.as_str());
                match cut12_of(&pcv) {
                    Some(ps) => crate::text::str_eq(ps.as_str(), short.as_str()),
                    None => false,
                }
            },
            None => false,
        };
        assert(f(pv[i as int]) == belongs);
        if belongs {
            proof {
                crate::groups::lemma_mem_take_le(pv, i + 1);
                crate::groups::lemma_mem_filter_le(pv.take(i + 1), f);
                crate::groups::lemma_mem_push(pv.take(i as int).filter(f), pv[i as int]);
            }
            let ghost before = info.processes@;
            info.add_process(processes[i].duplicate());
            assert(views(info.processes@) =~= views(before).push(pv[i as int]));
        }
        i += 1;
    }
    assert(pv.take(processes.len() as int) =~= pv);
    if info.process_count() > 0 {
        Some(info)
    } else {
        None
    }
}

} // verus!
