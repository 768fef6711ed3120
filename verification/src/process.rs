//! The process list: which processes are shown (filters), in what order
//! (sort modes and profile priorities), and what the process actions act on.
//!
//! Reading the system, evaluating an advanced filter (whose numeric fields
//! are floating point) and sending signals are the caller's work; this
//! module decides everything around them.

use vstd::prelude::*;
use crate::cpu::{f32_less, f32_lt};
use crate::filter::{FilterExpression, FilterParser, lowercase, parse_filter, result_is, Parse};
use crate::groups::{lex_lt, lemma_lex_irreflexive, lemma_lex_total, lemma_lex_transitive};
use crate::procinfo::{ProcessInfo, ProcessView, views};
use crate::profile::{ProfileManager, Profile, any_matches, nice_for};
use crate::text::{contains, contains_exec, decimal, decimal_string, owned, str_eq, trim};

verus! {

// ---------------------------------------------------------------------------
// Sort orders
// ---------------------------------------------------------------------------

/// `a` comes before `b` by the sort key `mode` in increasing order: `pid`,
/// `mem`, `ppid` (0 without a parent), `start` (the start time as written),
/// `nice`, `cpu` (by value; a NaN compares equal to everything), `name`,
/// `user` (empty when unknown) or `status`.
pub open spec fn key_less(mode: Seq<char>, a: ProcessView, b: ProcessView) -> bool {
    if mode == "pid"@ {
        a.pid < b.pid
    } else if mode == "mem"@ {
        a.memory_usage < b.memory_usage
    } else if mode == "ppid"@ {
        parent_or_zero(a) < parent_or_zero(b)
    } else if mode == "start"@ {
        lex_lt(a.start_time_str, b.start_time_str)
    } else if mode == "nice"@ {
        a.nice < b.nice
    } else if mode == "cpu"@ {
        f32_less(a.cpu_usage_bits, b.cpu_usage_bits)
    } else if mode == "name"@ {
        lex_lt(a.name, b.name)
    } else if mode == "user"@ {
        lex_lt(user_or_empty(a), user_or_empty(b))
    } else {
        lex_lt(a.status, b.status)
    }
}

pub open spec fn parent_or_zero(p: ProcessView) -> u32 {
    match p.parent_pid {
        Some(pp) => pp,
        None => 0,
    }
}

pub open spec fn user_or_empty(p: ProcessView) -> Seq<char> {
    match p.user {
        Some(u) => u,
        None => Seq::empty(),
    }
}

/// The sort modes there are.
pub open spec fn known_mode(mode: Seq<char>) -> bool {
    mode == "pid"@ || mode == "mem"@ || mode == "ppid"@ || mode == "start"@ || mode == "nice"@
        || mode == "cpu"@ || mode == "name"@ || mode == "user"@ || mode == "status"@
}

/// Whether `a` must come before `b` under `mode`, ascending or descending.
pub open spec fn precedes(mode: Seq<char>, ascending: bool) -> spec_fn(ProcessView, ProcessView) -> bool {
    |a: ProcessView, b: ProcessView|
        if ascending {
            key_less(mode, a, b)
        } else {
            key_less(mode, b, a)
        }
}

/// Where `x` goes into the ordered `s`: after every element it does not
/// precede, so that equal elements keep their order.
pub open spec fn slot<T>(
    s: Seq<T>,
    x: T,
    lt: spec_fn(T, T) -> bool,
) -> int
    decreases s.len(),
{
    if s.len() == 0 {
        0
    } else if !lt(x, s.last()) {
        s.len() as int
    } else {
        slot(s.drop_last(), x, lt)
    }
}

/// `s` in stable order under `lt`: each element goes after those it does not
/// precede.
pub open spec fn stable_sorted<T>(
    s: Seq<T>,
    lt: spec_fn(T, T) -> bool,
) -> Seq<T>
    decreases s.len(),
{
    if s.len() == 0 {
        s
    } else {
        let r = stable_sorted(s.drop_last(), lt);
        r.insert(slot(r, s.last(), lt), s.last())
    }
}

/// `s` ordered by `mode`; an unknown mode leaves it as it is.
pub open spec fn sorted_by(s: Seq<ProcessView>, mode: Seq<char>, ascending: bool) -> Seq<ProcessView> {
    if known_mode(mode) {
        stable_sorted(s, precedes(mode, ascending))
    } else {
        s
    }
}

fn parent_key(p: &ProcessInfo) -> (k: u32)
    ensures
        k == parent_or_zero(p@),
{
    match p.parent_pid {
        Some(pp) => pp,
        None => 0,
    }
}

fn user_key(p: &ProcessInfo) -> (k: &str)
    ensures
        k@ == user_or_empty(p@),
{
    match &p.user {
        Some(u) => u.as_str(),
        None => {
            proof {
                reveal_strlit("");
            }
            ""
        },
    }
}

fn key_less_exec(mode: &str, a: &ProcessInfo, b: &ProcessInfo) -> (r: bool)
    ensures
        r == key_less(mode@, a@, b@),
{
    if str_eq(mode, "pid") {
        a.pid < b.pid
    } else if str_eq(mode, "mem") {
        a.memory_usage < b.memory_usage
    } else if str_eq(mode, "ppid") {
        parent_key(a) < parent_key(b)
    } else if str_eq(mode, "start") {
        crate::groups::lex_less(a.start_time_str.as_str(), b.start_time_str.as_str())
    } else if str_eq(mode, "nice") {
        a.nice < b.nice
    } else if str_eq(mode, "cpu") {
        f32_lt(a.cpu_usage_bits, b.cpu_usage_bits)
    } else if str_eq(mode, "name") {
        crate::groups::lex_less(a.name.as_str(), b.name.as_str())
    } else if str_eq(mode, "user") {
        crate::groups::lex_less(user_key(a), user_key(b))
    } else {
        crate::groups::lex_less(a.status.as_str(), b.status.as_str())
    }
}

fn is_known_mode(mode: &str) -> (r: bool)
    ensures
        r == known_mode(mode@),
{
    str_eq(mode, "pid") || str_eq(mode, "mem") || str_eq(mode, "ppid") || str_eq(mode, "start")
        || str_eq(mode, "nice") || str_eq(mode, "cpu") || str_eq(mode, "name") || str_eq(
        mode,
        "user",
    ) || str_eq(mode, "status")
}

fn precedes_exec(mode: &str, ascending: bool, a: &ProcessInfo, b: &ProcessInfo) -> (r: bool)
    ensures
        r == (precedes(mode@, ascending))(a@, b@),
{
    if ascending {
        key_less_exec(mode, a, b)
    } else {
        key_less_exec(mode, b, a)
    }
}

/// Orders `list` by `mode` (stably); an unknown mode leaves it as it is.
pub fn sort_by_mode(list: Vec<ProcessInfo>, mode: &str, ascending: bool) -> (res: Vec<ProcessInfo>)
    ensures
        views(res@) == sorted_by(views(list@), mode@, ascending),
{
    if !is_known_mode(mode) {
        return list;
    }
    let ghost lt = precedes(mode@, ascending);
    let ghost all = views(list@);
    let mut rest = list;
    let mut out: Vec<ProcessInfo> = Vec::new();
    let n = rest.len();
    let mut i: usize = 0;
    while i < n
        invariant
            n == all.len(),
            i <= n,
            lt == precedes(mode@, ascending),
            views(rest@) == all.skip(i as int),
            rest.len() == n - i,
            views(out@) == stable_sorted(all.take(i as int), lt),
        decreases n - i,
    {
        let ghost before = rest@;
        let x = rest.remove(0);
        proof {
            assert(rest@ =~= before.drop_first());
            assert(views(rest@) =~= views(before).drop_first());
            assert(views(rest@) =~= all.skip(i + 1));
            assert(x == before[0]);
            assert(views(before)[0] == before[0]@);
            assert(x@ == all[i as int]);
            assert(all.take(i + 1).drop_last() =~= all.take(i as int));
            assert(all.take(i + 1).last() == all[i as int]);
        }
        let ghost ov = views(out@);
        let mut j = out.len();
        assert(ov.take(j as int) =~= ov);
        while j > 0 && precedes_exec(mode, ascending, &x, &out[j - 1])
            invariant
                j <= out.len(),
                ov == views(out@),
                lt == precedes(mode@, ascending),
                slot(ov, x@, lt) == slot(ov.take(j as int), x@, lt),
            decreases j,
        {
            assert(ov.take(j as int).drop_last() =~= ov.take(j - 1));
            assert(ov.take(j as int).last() == ov[j - 1]);
            j -= 1;
        }
        proof {
            if j > 0 {
                assert(ov.take(j as int).last() == ov[j - 1]);
            }
            assert(ov.take(ov.len() as int) =~= ov);
        }
        out.insert(j, x);
        assert(views(out@) =~= ov.insert(j as int, x@));
        i += 1;
    }
    assert(all.take(n as int) =~= all);
    out
}

// ---------------------------------------------------------------------------
// Laws of the sort
// ---------------------------------------------------------------------------

/// An order that sorting can rely on: no element precedes itself or one it
/// follows, and not preceding carries over (a strict weak order).
pub open spec fn strict_weak<T>(lt: spec_fn(T, T) -> bool) -> bool {
    &&& forall|a: T, b: T| #[trigger] lt(a, b) ==> !lt(b, a)
    &&& forall|a: T, b: T, c: T|
        !(#[trigger] lt(a, b)) && !(#[trigger] lt(b, c)) ==> !lt(a, c)
}

/// No element of `s` is preceded by a later one.
pub open spec fn in_order<T>(s: Seq<T>, lt: spec_fn(T, T) -> bool) -> bool {
    forall|i: int, j: int| 0 <= i < j < s.len() ==> !lt(s[j], s[i])
}

proof fn lemma_slot_bounds<T>(
    s: Seq<T>,
    x: T,
    lt: spec_fn(T, T) -> bool,
)
    ensures
        0 <= slot(s, x, lt) <= s.len(),
        forall|k: int| slot(s, x, lt) <= k < s.len() ==> lt(x, #[trigger] s[k]),
        slot(s, x, lt) > 0 ==> !lt(x, s[slot(s, x, lt) - 1]),
    decreases s.len(),
{
    if s.len() > 0 && lt(x, s.last()) {
        lemma_slot_bounds(s.drop_last(), x, lt);
        assert forall|k: int| slot(s, x, lt) <= k < s.len() implies lt(x, #[trigger] s[k]) by {
            if k < s.len() - 1 {
                assert(s[k] == s.drop_last()[k]);
            }
        }
    }
}

/// Law: a stable sort under a strict weak order leaves no element preceded
/// by a later one.
pub proof fn lemma_stable_sorted_in_order<T>(
    s: Seq<T>,
    lt: spec_fn(T, T) -> bool,
)
    requires
        strict_weak(lt),
    ensures
        in_order(stable_sorted(s, lt), lt),
        stable_sorted(s, lt).len() == s.len(),
    decreases s.len(),
{
    if s.len() > 0 {
        lemma_stable_sorted_in_order(s.drop_last(), lt);
        let r = stable_sorted(s.drop_last(), lt);
        let x = s.last();
        let k = slot(r, x, lt);
        lemma_slot_bounds(r, x, lt);
        let out = r.insert(k, x);
        assert forall|i: int, j: int| 0 <= i < j < out.len() implies !lt(out[j], out[i]) by {
            if j < k {
                assert(out[i] == r[i] && out[j] == r[j]);
            } else if j == k {
                assert(out[i] == r[i]);
                assert(!lt(x, r[k - 1]));
                if i < k - 1 {
                    assert(!lt(r[k - 1], r[i]));
                }
            } else if i < k {
                assert(out[i] == r[i] && out[j] == r[j - 1]);
            } else if i == k {
                assert(out[j] == r[j - 1]);
                assert(lt(x, r[j - 1]));
            } else {
                assert(out[i] == r[i - 1] && out[j] == r[j - 1]);
            }
        }
    }
}

/// Law: sorting keeps the same processes.
#[verifier::rlimit(40)]
pub proof fn lemma_stable_sorted_permutes<T>(
    s: Seq<T>,
    lt: spec_fn(T, T) -> bool,
)
    ensures
        stable_sorted(s, lt).to_multiset() == s.to_multiset(),
    decreases s.len(),
{
    broadcast use vstd::multiset::group_multiset_axioms, vstd::seq_lib::group_to_multiset_ensures;

    if s.len() > 0 {
        let r = stable_sorted(s.drop_last(), lt);
        lemma_stable_sorted_permutes(s.drop_last(), lt);
        lemma_slot_bounds(r, s.last(), lt);
        let x = s.last();
        let k = slot(r, x, lt);
        let t = r.take(k);
        let u = r.skip(k);
        let out = r.insert(k, x);
        assert(out =~= t.push(x) + u);
        assert(r =~= t + u);
        vstd::seq_lib::lemma_multiset_commutative(t.push(x), u);
        vstd::seq_lib::lemma_multiset_commutative(t, u);
        assert(s =~= s.drop_last().push(x));
        assert(out.to_multiset() =~= s.to_multiset());
    }
}

/// Law: the orders of the integer keys, and of the string keys, are strict
/// weak orders, ascending and descending.
pub proof fn lemma_key_orders_strict_weak(mode: Seq<char>, ascending: bool)
    requires
        known_mode(mode),
        mode != "cpu"@,
    ensures
        strict_weak(precedes(mode, ascending)),
{
    let lt = precedes(mode, ascending);
    assert forall|a: ProcessView, b: ProcessView| #[trigger] lt(a, b) implies !lt(b, a) by {
        lemma_lex_total(a.start_time_str, b.start_time_str);
        lemma_lex_total(a.name, b.name);
        lemma_lex_total(user_or_empty(a), user_or_empty(b));
        lemma_lex_total(a.status, b.status);
    }
    assert forall|a: ProcessView, b: ProcessView, c: ProcessView|
        !(#[trigger] lt(a, b)) && !(#[trigger] lt(b, c)) implies !lt(a, c) by {
        if lt(a, c) {
            lemma_lex_total(a.start_time_str, b.start_time_str);
            lemma_lex_total(b.start_time_str, c.start_time_str);
            lemma_lex_total(a.name, b.name);
            lemma_lex_total(b.name, c.name);
            lemma_lex_total(user_or_empty(a), user_or_empty(b));
            lemma_lex_total(user_or_empty(b), user_or_empty(c));
            lemma_lex_total(a.status, b.status);
            lemma_lex_total(b.status, c.status);
            if ascending {
                if mode == "start"@ {
                    lemma_lex_strict_weak_step(a.start_time_str, b.start_time_str, c.start_time_str);
                } else if mode == "name"@ {
                    lemma_lex_strict_weak_step(a.name, b.name, c.name);
                } else if mode == "user"@ {
                    lemma_lex_strict_weak_step(user_or_empty(a), user_or_empty(b), user_or_empty(c));
                } else if mode == "status"@ {
                    lemma_lex_strict_weak_step(a.status, b.status, c.status);
                }
            } else {
                if mode == "start"@ {
                    lemma_lex_strict_weak_step(c.start_time_str, b.start_time_str, a.start_time_str);
                } else if mode == "name"@ {
                    lemma_lex_strict_weak_step(c.name, b.name, a.name);
                } else if mode == "user"@ {
                    lemma_lex_strict_weak_step(user_or_empty(c), user_or_empty(b), user_or_empty(a));
                } else if mode == "status"@ {
                    lemma_lex_strict_weak_step(c.status, b.status, a.status);
                }
            }
        }
    }
}

/// Law: sorting by a whole-number key orders the processes by that key, each
/// at most the next ascending and at least it descending: `pid` by the PID,
/// `mem` by the memory, `ppid` by the parent's PID (0 without a parent),
/// `nice` by the nice value. The sorted list has as many processes.
pub proof fn lemma_sorted_by_number(s: Seq<ProcessView>, mode: Seq<char>, ascending: bool, i: int, j: int)
    requires
        mode == "pid"@ || mode == "mem"@ || mode == "ppid"@ || mode == "nice"@,
        0 <= i < j < s.len(),
    ensures
        sorted_by(s, mode, ascending).len() == s.len(),
        ({
            let a = sorted_by(s, mode, ascending)[i];
            let b = sorted_by(s, mode, ascending)[j];
            let pa: int = match a.parent_pid {
                Some(x) => x as int,
                None => 0,
            };
            let pb: int = match b.parent_pid {
                Some(x) => x as int,
                None => 0,
            };
            &&& mode == "pid"@ ==> if ascending { a.pid <= b.pid } else { a.pid >= b.pid }
            &&& mode == "mem"@ ==> if ascending { a.memory_usage <= b.memory_usage } else { a.memory_usage >= b.memory_usage }
            &&& mode == "ppid"@ ==> if ascending { pa <= pb } else { pa >= pb }
            &&& mode == "nice"@ ==> if ascending { a.nice <= b.nice } else { a.nice >= b.nice }
        }),
{
    reveal_strlit("pid");
    reveal_strlit("mem");
    reveal_strlit("ppid");
    reveal_strlit("nice");
    reveal_strlit("cpu");
    assert("pid"@[0] != "cpu"@[0] && "mem"@[0] != "cpu"@[0] && "pid"@[0] != "mem"@[0]);
    assert("ppid"@.len() != "cpu"@.len() && "nice"@.len() != "cpu"@.len());
    assert("ppid"@.len() != "pid"@.len() && "ppid"@.len() != "mem"@.len());
    assert("nice"@.len() != "pid"@.len() && "nice"@.len() != "mem"@.len() && "nice"@[0] != "ppid"@[0]);
    assert(known_mode(mode));
    assert(mode != "cpu"@);
    lemma_key_orders_strict_weak(mode, ascending);
    lemma_stable_sorted_in_order(s, precedes(mode, ascending));
    let lt = precedes(mode, ascending);
    let r = sorted_by(s, mode, ascending);
    assert(r == stable_sorted(s, lt));
    assert(in_order(r, lt));
    assert(!lt(r[j], r[i]));
    if ascending {
        assert(!key_less(mode, r[j], r[i]));
    } else {
        assert(!key_less(mode, r[i], r[j]));
    }
    if mode == "mem"@ {
        assert(mode != "pid"@);
    } else if mode == "ppid"@ {
        assert(mode != "pid"@ && mode != "mem"@);
        assert(key_less(mode, r[j], r[i]) == (parent_or_zero(r[j]) < parent_or_zero(r[i])));
        assert(key_less(mode, r[i], r[j]) == (parent_or_zero(r[i]) < parent_or_zero(r[j])));
    } else if mode == "nice"@ {
        reveal_strlit("start");
        assert("start"@.len() != "nice"@.len());
        assert(mode != "pid"@ && mode != "mem"@ && mode != "ppid"@ && mode != "start"@);
        assert(key_less(mode, r[j], r[i]) == (r[j].nice < r[i].nice));
        assert(key_less(mode, r[i], r[j]) == (r[i].nice < r[j].nice));
    }
}

/// Law: sorting by a text key orders the processes by that key, no process
/// after one whose key comes later in dictionary order (ascending), or
/// earlier (descending): `start` by the start time as written, `name` by the
/// name, `user` by the user (empty when unknown), `status` by the status.
pub proof fn lemma_sorted_by_text(s: Seq<ProcessView>, mode: Seq<char>, ascending: bool, i: int, j: int)
    requires
        mode == "start"@ || mode == "name"@ || mode == "user"@ || mode == "status"@,
        0 <= i < j < s.len(),
    ensures
        sorted_by(s, mode, ascending).len() == s.len(),
        ({
            let a = sorted_by(s, mode, ascending)[i];
            let b = sorted_by(s, mode, ascending)[j];
            let ua = match a.user {
                Some(u) => u,
                None => Seq::<char>::empty(),
            };
            let ub = match b.user {
                Some(u) => u,
                None => Seq::<char>::empty(),
            };
            &&& mode == "start"@ ==> if ascending {
                !lex_lt(b.start_time_str, a.start_time_str)
            } else {
                !lex_lt(a.start_time_str, b.start_time_str)
            }
            &&& mode == "name"@ ==> if ascending { !lex_lt(b.name, a.name) } else { !lex_lt(a.name, b.name) }
            &&& mode == "user"@ ==> if ascending { !lex_lt(ub, ua) } else { !lex_lt(ua, ub) }
            &&& mode == "status"@ ==> if ascending { !lex_lt(b.status, a.status) } else { !lex_lt(a.status, b.status) }
        }),
{
    reveal_strlit("pid");
    reveal_strlit("mem");
    reveal_strlit("ppid");
    reveal_strlit("nice");
    reveal_strlit("cpu");
    reveal_strlit("start");
    reveal_strlit("name");
    reveal_strlit("user");
    reveal_strlit("status");
    assert("start"@.len() == 5 && "status"@.len() == 6 && "name"@.len() == 4 && "user"@.len() == 4);
    assert("pid"@.len() == 3 && "mem"@.len() == 3 && "cpu"@.len() == 3);
    assert("ppid"@[0] != "name"@[0] && "ppid"@[0] != "user"@[0] && "nice"@[1] != "name"@[1] && "nice"@[0] != "user"@[0]);
    assert("name"@[0] != "user"@[0]);
    assert(known_mode(mode));
    assert(mode != "cpu"@);
    lemma_key_orders_strict_weak(mode, ascending);
    lemma_stable_sorted_in_order(s, precedes(mode, ascending));
    let lt = precedes(mode, ascending);
    let r = sorted_by(s, mode, ascending);
    assert(r == stable_sorted(s, lt));
    assert(in_order(r, lt));
    assert(!lt(r[j], r[i]));
    assert(mode != "pid"@ && mode != "mem"@ && mode != "ppid"@);
    if mode != "start"@ {
        assert(mode != "nice"@);
        if mode != "name"@ {
            assert(mode != "user"@ ==> mode == "status"@);
        }
    }
    if ascending {
        assert(!key_less(mode, r[j], r[i]));
    } else {
        assert(!key_less(mode, r[i], r[j]));
    }
}

/// If `x < z` then `x < y` or `y < z`.
proof fn lemma_lex_strict_weak_step(x: Seq<char>, y: Seq<char>, z: Seq<char>)
    requires
        lex_lt(x, z),
    ensures
        lex_lt(x, y) || lex_lt(y, z),
{
    lemma_lex_total(x, y);
    lemma_lex_total(y, z);
    if !lex_lt(x, y) && !lex_lt(y, z) {
        if x == y {
        } else {
            assert(lex_lt(y, x));
            if y == z {
            } else {
                assert(lex_lt(z, y));
                lemma_lex_transitive(z, y, x);
                lemma_lex_total(x, z);
            }
        }
    }
}

// ---------------------------------------------------------------------------
// Filters
// ---------------------------------------------------------------------------

/// Whether a process passes the simple filter `mode` = `value`: its user
/// contains the value (`user`), its name contains it ignoring case (`name`),
/// its PID or parent PID written in decimal contains it (`pid`, `ppid`).
/// An unknown mode lets every process pass.
pub open spec fn passes_simple(mode: Seq<char>, value: Seq<char>, p: ProcessView) -> bool {
    if mode == "user"@ {
        match p.user {
            Some(u) => contains(u, value),
            None => false,
        }
    } else if mode == "name"@ {
        contains(lowercase(p.name), lowercase(value))
    } else if mode == "pid"@ {
        contains(decimal(p.pid as nat), value)
    } else if mode == "ppid"@ {
        match p.parent_pid {
            Some(pp) => contains(decimal(pp as nat), value),
            None => false,
        }
    } else {
        true
    }
}

pub open spec fn simple_filter(mode: Seq<char>, value: Seq<char>) -> spec_fn(ProcessView) -> bool {
    |p: ProcessView| passes_simple(mode, value, p)
}

/// The elements of `s` whose flag is set.
pub open spec fn selected(s: Seq<ProcessView>, flags: Seq<bool>) -> Seq<ProcessView>
    decreases s.len(),
{
    if s.len() == 0 || flags.len() != s.len() {
        seq![]
    } else if flags.last() {
        selected(s.drop_last(), flags.drop_last()).push(s.last())
    } else {
        selected(s.drop_last(), flags.drop_last())
    }
}

fn passes_simple_exec(mode: &str, value: &str, p: &ProcessInfo) -> (r: bool)
    ensures
        r == passes_simple(mode@, value@, p@),
{
    if str_eq(mode, "user") {
        match &p.user {
            Some(u) => contains_exec(u.as_str(), value),
            None => false,
        }
    } else if str_eq(mode, "name") {
        let n = crate::filter::to_lowercase(p.name.as_str());
        let v = crate::filter::to_lowercase(value);
        contains_exec(n.as_str(), v.as_str())
    } else if str_eq(mode, "pid") {
        let d = decimal_string(p.pid as u64);
        contains_exec(d.as_str(), value)
    } else if str_eq(mode, "ppid") {
        match p.parent_pid {
            Some(pp) => {
                let d = decimal_string(pp as u64);
                contains_exec(d.as_str(), value)
            },
            None => false,
        }
    } else {
        true
    }
}

// ---------------------------------------------------------------------------
// Process actions
// ---------------------------------------------------------------------------

/// Why a nice value cannot be set.
#[derive(Clone, Copy, Debug, PartialEq, Eq, Structural)]
pub enum NiceError {
    /// Nice values run from -20 to 19.
    OutOfRange,
    /// Only root may lower a nice value below zero.
    NeedsRoot,
}

/// Whether a process may be given nice value `nice` by a user with effective
/// user ID `euid` (root is 0).
pub fn check_niceness(nice: i32, euid: u32) -> (res: Result<(), NiceError>)
    ensures
        (nice < -20 || nice > 19) ==> res == Err::<(), NiceError>(NiceError::OutOfRange),
        (-20 <= nice <= 19 && nice < 0 && euid != 0) ==> res == Err::<(), NiceError>(
            NiceError::NeedsRoot,
        ),
        (-20 <= nice <= 19 && (nice >= 0 || euid == 0)) ==> res is Ok,
{
    if nice < -20 || nice > 19 {
        Err(NiceError::OutOfRange)
    } else if nice < 0 && euid != 0 {
        Err(NiceError::NeedsRoot)
    } else {
        Ok(())
    }
}

/// What the cleanup of an idle process does to it.
#[derive(Clone, Copy, Debug, PartialEq, Eq, Structural)]
pub enum CleanupOp {
    Kill,
    Stop,
    /// Set this nice value.
    Renice(i32),
}

/// What `action` does to a process with nice value `nice`: `kill`, `stop`,
/// or `lower_priority` (nice raised by five, at most to 19); nothing for any
/// other action.
pub open spec fn cleanup_op(action: Seq<char>, nice: i32) -> Option<CleanupOp> {
    if action == "kill"@ {
        Some(CleanupOp::Kill)
    } else if action == "stop"@ {
        Some(CleanupOp::Stop)
    } else if action == "lower_priority"@ {
        Some(CleanupOp::Renice(if nice + 5 <= 19 { (nice + 5) as i32 } else { 19 }))
    } else {
        None
    }
}

/// A process is idle: its CPU share is below the threshold while its memory
/// is above the threshold.
pub open spec fn idle(p: ProcessView, cpu_threshold_bits: u32, memory_threshold: u64) -> bool {
    f32_less(p.cpu_usage_bits, cpu_threshold_bits) && p.memory_usage > memory_threshold
}

/// The cleanup steps for the idle processes of `ps`, in order.
pub open spec fn cleanup_steps(
    ps: Seq<ProcessView>,
    cpu_threshold_bits: u32,
    memory_threshold: u64,
    action: Seq<char>,
) -> Seq<(u32, CleanupOp)>
    decreases ps.len(),
{
    if ps.len() == 0 {
        seq![]
    } else {
        let rest = cleanup_steps(ps.drop_last(), cpu_threshold_bits, memory_threshold, action);
        let p = ps.last();
        if idle(p, cpu_threshold_bits, memory_threshold) {
            match cleanup_op(action, p.nice) {
                Some(op) => rest.push((p.pid, op)),
                None => rest,
            }
        } else {
            rest
        }
    }
}

/// Law: lowering the priority of the idle processes plans one step for each
/// idle process and nothing else: the step for a process with nice value
/// `n` sets `min(n + 5, 19)`, and every step is such a step for an idle
/// process of the list.
pub proof fn lemma_lower_priority_steps(
    ps: Seq<ProcessView>,
    cpu_threshold_bits: u32,
    memory_threshold: u64,
)
    ensures
        forall|k: int|
            #![trigger cleanup_steps(ps, cpu_threshold_bits, memory_threshold, "lower_priority"@)[k]]
            0 <= k < cleanup_steps(ps, cpu_threshold_bits, memory_threshold, "lower_priority"@).len()
                ==> exists|i: int|
                0 <= i < ps.len() && idle(#[trigger] ps[i], cpu_threshold_bits, memory_threshold)
                    && cleanup_steps(ps, cpu_threshold_bits, memory_threshold, "lower_priority"@)[k]
                    == (ps[i].pid, CleanupOp::Renice(vstd::math::min(ps[i].nice + 5, 19) as i32)),
        forall|i: int|
            0 <= i < ps.len() && idle(#[trigger] ps[i], cpu_threshold_bits, memory_threshold) ==> exists|k: int|
                0 <= k < cleanup_steps(ps, cpu_threshold_bits, memory_threshold, "lower_priority"@).len()
                    && cleanup_steps(ps, cpu_threshold_bits, memory_threshold, "lower_priority"@)[k]
                    == (ps[i].pid, CleanupOp::Renice(vstd::math::min(ps[i].nice + 5, 19) as i32)),
    decreases ps.len(),
{
    reveal_strlit("lower_priority");
    reveal_strlit("kill");
    reveal_strlit("stop");
    let a = "lower_priority"@;
    assert(a.len() != "kill"@.len() && a.len() != "stop"@.len());
    if ps.len() > 0 {
        let init = ps.drop_last();
        lemma_lower_priority_steps(init, cpu_threshold_bits, memory_threshold);
        let rest = cleanup_steps(init, cpu_threshold_bits, memory_threshold, a);
        let all = cleanup_steps(ps, cpu_threshold_bits, memory_threshold, a);
        let p = ps.last();
        let n = ps.len() - 1;
        assert(ps[n] == p);
        let op = CleanupOp::Renice(vstd::math::min(p.nice + 5, 19) as i32);
        assert(idle(p, cpu_threshold_bits, memory_threshold) ==> all == rest.push((p.pid, op)));
        assert(!idle(p, cpu_threshold_bits, memory_threshold) ==> all == rest);
        assert forall|k: int| #![trigger all[k]] 0 <= k < all.len() implies exists|i: int|
            0 <= i < ps.len() && idle(#[trigger] ps[i], cpu_threshold_bits, memory_threshold) && all[k] == (
                ps[i].pid,
                CleanupOp::Renice(vstd::math::min(ps[i].nice + 5, 19) as i32),
            ) by {
            if k < rest.len() {
                assert(all[k] == rest[k]);
                let i = choose|i: int|
                    0 <= i < init.len() && idle(#[trigger] init[i], cpu_threshold_bits, memory_threshold) && rest[k] == (
                        init[i].pid,
                        CleanupOp::Renice(vstd::math::min(init[i].nice + 5, 19) as i32),
                    );
                assert(ps[i] == init[i]);
            } else {
                assert(all[k] == (p.pid, op));
            }
        }
        assert forall|i: int| 0 <= i < ps.len() && idle(#[trigger] ps[i], cpu_threshold_bits, memory_threshold)
            implies exists|k: int| 0 <= k < all.len() && all[k] == (ps[i].pid, CleanupOp::Renice(
            vstd::math::min(ps[i].nice + 5, 19) as i32,
        )) by {
            if i < n {
                assert(init[i] == ps[i]);
                let k = choose|k: int| 0 <= k < rest.len() && rest[k] == (init[i].pid, CleanupOp::Renice(
                    vstd::math::min(init[i].nice + 5, 19) as i32,
                ));
                assert(all[k] == rest[k]);
            } else {
                assert(all[rest.len() as int] == (p.pid, op));
            }
        }
    }
}

/// Law: killing or stopping the idle processes plans, for each idle process
/// in order, that one operation on it, and nothing else; an action other
/// than `kill`, `stop` and `lower_priority` plans nothing.
pub proof fn lemma_kill_stop_steps(ps: Seq<ProcessView>, cpu_threshold_bits: u32, memory_threshold: u64, action: Seq<char>)
    ensures
        action == "kill"@ || action == "stop"@ ==> forall|k: int|
            #![trigger cleanup_steps(ps, cpu_threshold_bits, memory_threshold, action)[k]]
            0 <= k < cleanup_steps(ps, cpu_threshold_bits, memory_threshold, action).len() ==> cleanup_steps(
                ps,
                cpu_threshold_bits,
                memory_threshold,
                action,
            )[k].1 == (if action == "kill"@ {
                CleanupOp::Kill
            } else {
                CleanupOp::Stop
            }) && exists|i: int|
                0 <= i < ps.len() && idle(#[trigger] ps[i], cpu_threshold_bits, memory_threshold) && cleanup_steps(
                    ps,
                    cpu_threshold_bits,
                    memory_threshold,
                    action,
                )[k].0 == ps[i].pid,
        action != "kill"@ && action != "stop"@ && action != "lower_priority"@ ==> cleanup_steps(
            ps,
            cpu_threshold_bits,
            memory_threshold,
            action,
        ).len() == 0,
    decreases ps.len(),
{
    reveal_strlit("lower_priority");
    reveal_strlit("kill");
    reveal_strlit("stop");
    assert("kill"@[0] != "stop"@[0]);
    if ps.len() > 0 {
        let init = ps.drop_last();
        lemma_kill_stop_steps(init, cpu_threshold_bits, memory_threshold, action);
        let rest = cleanup_steps(init, cpu_threshold_bits, memory_threshold, action);
        let all = cleanup_steps(ps, cpu_threshold_bits, memory_threshold, action);
        let n = ps.len() - 1;
        assert(ps[n] == ps.last());
        if action == "kill"@ || action == "stop"@ {
            assert forall|k: int| #![trigger all[k]] 0 <= k < all.len() implies all[k].1 == (if action == "kill"@ {
                CleanupOp::Kill
            } else {
                CleanupOp::Stop
            }) && exists|i: int|
                0 <= i < ps.len() && idle(#[trigger] ps[i], cpu_threshold_bits, memory_threshold) && all[k].0
                    == ps[i].pid by {
                if k < rest.len() {
                    assert(all[k] == rest[k]);
                    let i = choose|i: int|
                        0 <= i < init.len() && idle(#[trigger] init[i], cpu_threshold_bits, memory_threshold) && rest[k].0
                            == init[i].pid;
                    assert(ps[i] == init[i]);
                }
            }
        }
    }
}

/// How many of the outcomes are successes.
pub open spec fn successes(outcomes: Seq<bool>) -> nat
    decreases outcomes.len(),
{
    if outcomes.len() == 0 {
        0
    } else {
        successes(outcomes.drop_last()) + if outcomes.last() {
            1nat
        } else {
            0nat
        }
    }
}

/// The process is hidden by the active profile, if there is one.
pub open spec fn hidden_by(p: ProcessView, profile: Option<Profile>) -> bool {
    match profile {
        Some(pr) => any_matches(p.name, pr.hide_processes@),
        None => false,
    }
}

/// The positions, in order, of the processes that the active profile does
/// not hide.
pub open spec fn shown_positions(ps: Seq<ProcessView>, profile: Option<Profile>) -> Seq<int>
    decreases ps.len(),
{
    if ps.len() == 0 {
        seq![]
    } else {
        let rest = shown_positions(ps.drop_last(), profile);
        if hidden_by(ps.last(), profile) {
            rest
        } else {
            rest.push(ps.len() - 1)
        }
    }
}

/// The nice values the active profile asks for that processes do not
/// have yet, in order.
pub open spec fn nice_steps(ps: Seq<ProcessView>, profile: Option<Profile>) -> Seq<(u32, i32)>
    decreases ps.len(),
{
    if ps.len() == 0 {
        seq![]
    } else {
        let rest = nice_steps(ps.drop_last(), profile);
        let p = ps.last();
        match profile {
            Some(pr) => match nice_for(pr.nice_adjustments@, p.name) {
                Some(n) => if n != p.nice {
                    rest.push((p.pid, n))
                } else {
                    rest
                },
                None => rest,
            },
            None => rest,
        }
    }
}

/// Whether the active profile gives priority to a process.
pub open spec fn prioritized_by(profile: Option<Profile>) -> spec_fn(ProcessView) -> bool {
    |p: ProcessView|
        match profile {
            Some(pr) => any_matches(p.name, pr.prioritize_processes@),
            None => false,
        }
}

pub open spec fn not_prioritized_by(profile: Option<Profile>) -> spec_fn(ProcessView) -> bool {
    |p: ProcessView| !(prioritized_by(profile))(p)
}

pub open spec fn child_of(parent: u32) -> spec_fn(ProcessView) -> bool {
    |p: ProcessView| p.parent_pid == Some(parent)
}

pub open spec fn name_contains(pattern: Seq<char>) -> spec_fn(ProcessView) -> bool {
    |p: ProcessView| contains(p.name, pattern)
}

// ---------------------------------------------------------------------------
// The process list
// ---------------------------------------------------------------------------

/// The processes shown and how they are chosen and ordered.
pub struct ProcessManager {
    processes: Vec<ProcessInfo>,
    filtered_processes: Vec<ProcessInfo>,
    sort_mode: Option<String>,
    sort_ascending: bool,
    filter_mode: Option<String>,
    filter_value: Option<String>,
    advanced_filter: Option<FilterExpression>,
    filter_parser: FilterParser,
}

pub open spec fn opt_str(o: Option<String>) -> Option<Seq<char>> {
    crate::procinfo::opt_view(o)
}

impl ProcessManager {
    pub closed spec fn spec_processes(&self) -> Seq<ProcessView> {
        views(self.processes@)
    }

    pub closed spec fn spec_filtered(&self) -> Seq<ProcessView> {
        views(self.filtered_processes@)
    }

    pub closed spec fn spec_sort(&self) -> Option<Seq<char>> {
        opt_str(self.sort_mode)
    }

    pub closed spec fn spec_ascending(&self) -> bool {
        self.sort_ascending
    }

    pub closed spec fn spec_filter_mode(&self) -> Option<Seq<char>> {
        opt_str(self.filter_mode)
    }

    pub closed spec fn spec_filter_value(&self) -> Option<Seq<char>> {
        opt_str(self.filter_value)
    }

    pub closed spec fn spec_advanced(&self) -> Option<crate::filter::Filter> {
        match self.advanced_filter {
            Some(e) => Some(crate::filter::filter_view(e)),
            None => None,
        }
    }

    /// The processes that pass the filters in force, from `candidates`:
    /// those the advanced filter kept (`advanced_verdicts`) when there is
    /// one, else those passing the simple filter when it is set, else all.
    pub open spec fn chosen(&self, candidates: Seq<ProcessView>, advanced_verdicts: Seq<bool>) -> Seq<
        ProcessView,
    > {
        if self.spec_advanced() is Some {
            selected(candidates, advanced_verdicts)
        } else if self.spec_filter_mode() is Some && self.spec_filter_value() is Some {
            candidates.filter(
                simple_filter(self.spec_filter_mode()->0, self.spec_filter_value()->0),
            )
        } else {
            candidates
        }
    }

    /// `s` in the sort order in force, if any.
    pub open spec fn ordered(&self, s: Seq<ProcessView>) -> Seq<ProcessView> {
        match self.spec_sort() {
            Some(m) => sorted_by(s, m, self.spec_ascending()),
            None => s,
        }
    }

    /// No processes, no filter, no sort (ascending once one is chosen).
    pub fn new() -> (m: Self)
        ensures
            m.spec_processes().len() == 0,
            m.spec_filtered().len() == 0,
            m.spec_sort() is None,
            m.spec_ascending(),
            m.spec_filter_mode() is None,
            m.spec_filter_value() is None,
            m.spec_advanced() is None,
    {
        let m = ProcessManager {
            processes: Vec::new(),
            filtered_processes: Vec::new(),
            sort_mode: None,
            sort_ascending: true,
            filter_mode: None,
            filter_value: None,
            advanced_filter: None,
            filter_parser: FilterParser::new(),
        };
        assert(views(m.processes@) =~= Seq::empty());
        assert(views(m.filtered_processes@) =~= Seq::empty());
        m
    }

    /// Takes in the processes read from the system: keeps those that pass
    /// the filters in force and orders them by the sort mode in force.
    /// `advanced_verdicts[i]` says whether candidate `i` passes the advanced
    /// filter, when one is set.
    pub fn update_processes(&mut self, candidates: Vec<ProcessInfo>, advanced_verdicts: &[bool])
        requires
            old(self).spec_advanced() is Some ==> advanced_verdicts@.len() == candidates@.len(),
        ensures
            final(self).spec_processes() == old(self).ordered(
                old(self).chosen(views(candidates@), advanced_verdicts@),
            ),
            final(self).spec_filtered() == old(self).spec_filtered(),
            final(self).spec_sort() == old(self).spec_sort(),
            final(self).spec_ascending() == old(self).spec_ascending(),
            final(self).spec_filter_mode() == old(self).spec_filter_mode(),
            final(self).spec_filter_value() == old(self).spec_filter_value(),
            final(self).spec_advanced() == old(self).spec_advanced(),
    {
        let ghost cv = views(candidates@);
        let use_advanced = self.advanced_filter.is_some();
        let use_simple = !use_advanced && self.filter_mode.is_some() && self.filter_value.is_some();
        let mut kept: Vec<ProcessInfo> = Vec::new();
        let mut rest = candidates;
        let n = rest.len();
        let mut i: usize = 0;
        while i < n
            invariant
                n == cv.len(),
                i <= n,
                rest.len() == n - i,
                views(rest@) == cv.skip(i as int),
                use_advanced == (self.spec_advanced() is Some),
                use_advanced ==> advanced_verdicts@.len() == n,
                use_simple == (!use_advanced && self.spec_filter_mode() is Some
                    && self.spec_filter_value() is Some),
                self == old(self),
                views(kept@) == self.chosen(cv.take(i as int), advanced_verdicts@.take(i as int)),
            decreases n - i,
        {
            let ghost before = rest@;
            let p = rest.remove(0);
            proof {
                assert(rest@ =~= before.drop_first());
                assert(views(rest@) =~= views(before).drop_first());
                assert(views(before)[0] == p@);
                assert(cv.take(i + 1).drop_last() =~= cv.take(i as int));
                assert(cv.take(i + 1).last() == p@);
                reveal(Seq::filter);
                if use_advanced {
                    let fl = advanced_verdicts@.take(i + 1);
                    assert(fl.drop_last() =~= advanced_verdicts@.take(i as int));
                    assert(fl.last() == advanced_verdicts@[i as int]);
                }
            }
            let keep = if use_advanced {
                advanced_verdicts[i]
            } else if use_simple {
                match (&self.filter_mode, &self.filter_value) {
                    (Some(m), Some(v)) => passes_simple_exec(m.as_str(), v.as_str(), &p),
                    _ => true,
                }
            } else {
                true
            };
            if keep {
                let ghost kb = kept@;
                kept.push(p);
                assert(views(kept@) =~= views(kb).push(cv[i as int]));
            }
            i += 1;
        }
        proof {
            assert(cv.take(n as int) =~= cv);
            if use_advanced {
                assert(advanced_verdicts@.take(n as int) =~= advanced_verdicts@);
            }
        }
        let sorted = match &self.sort_mode {
            Some(m) => sort_by_mode(kept, m.as_str(), self.sort_ascending),
            None => kept,
        };
        self.processes = sorted;
    }

    /// Takes in a fresh reading of the system: the processes are filtered
    /// and ordered, then ordered once more by the sort mode in force.
    pub fn refresh(&mut self, candidates: Vec<ProcessInfo>, advanced_verdicts: &[bool])
        requires
            old(self).spec_advanced() is Some ==> advanced_verdicts@.len() == candidates@.len(),
        ensures
            final(self).spec_processes() == old(self).ordered(
                old(self).ordered(old(self).chosen(views(candidates@), advanced_verdicts@)),
            ),
            final(self).spec_filtered() == old(self).spec_filtered(),
            final(self).spec_sort() == old(self).spec_sort(),
            final(self).spec_ascending() == old(self).spec_ascending(),
            final(self).spec_filter_mode() == old(self).spec_filter_mode(),
            final(self).spec_filter_value() == old(self).spec_filter_value(),
            final(self).spec_advanced() == old(self).spec_advanced(),
    {
        self.update_processes(candidates, advanced_verdicts);
        self.resort();
    }

    fn resort(&mut self)
        ensures
            final(self).spec_processes() == old(self).ordered(old(self).spec_processes()),
            final(self).spec_filtered() == old(self).spec_filtered(),
            final(self).spec_sort() == old(self).spec_sort(),
            final(self).spec_ascending() == old(self).spec_ascending(),
            final(self).spec_filter_mode() == old(self).spec_filter_mode(),
            final(self).spec_filter_value() == old(self).spec_filter_value(),
            final(self).spec_advanced() == old(self).spec_advanced(),
    {
        if let Some(m) = &self.sort_mode {
            let mut list: Vec<ProcessInfo> = Vec::new();
            std::mem::swap(&mut list, &mut self.processes);
            let sorted = sort_by_mode(list, m.as_str(), self.sort_ascending);
            self.processes = sorted;
        }
    }

    /// Sets the simple filter and drops the advanced one. The caller then
    /// refreshes the list.
    pub fn set_filter(&mut self, mode: Option<String>, value: Option<String>)
        ensures
            final(self).spec_filter_mode() == opt_str(mode),
            final(self).spec_filter_value() == opt_str(value),
            final(self).spec_advanced() is None,
            final(self).spec_processes() == old(self).spec_processes(),
            final(self).spec_filtered() == old(self).spec_filtered(),
            final(self).spec_sort() == old(self).spec_sort(),
            final(self).spec_ascending() == old(self).spec_ascending(),
    {
        self.filter_mode = mode;
        self.filter_value = value;
        self.advanced_filter = None;
    }

    /// Sets the advanced filter and drops the simple one. The caller then
    /// refreshes the list.
    pub fn set_advanced_filter(&mut self, filter_expr: Option<FilterExpression>)
        ensures
            final(self).spec_advanced() == (match filter_expr {
                Some(e) => Some(crate::filter::filter_view(e)),
                None => None::<crate::filter::Filter>,
            }),
            final(self).spec_filter_mode() is None,
            final(self).spec_filter_value() is None,
            final(self).spec_processes() == old(self).spec_processes(),
            final(self).spec_filtered() == old(self).spec_filtered(),
            final(self).spec_sort() == old(self).spec_sort(),
            final(self).spec_ascending() == old(self).spec_ascending(),
    {
        self.advanced_filter = filter_expr;
        self.filter_mode = None;
        self.filter_value = None;
    }

    /// Parses and sets an advanced filter; blank text clears it. On a
    /// parse error nothing changes.
    pub fn set_advanced_filter_string(&mut self, filter_str: &str) -> (res: Result<(), String>)
        requires
            trim(filter_str@).len() > 0 ==> !(parse_filter(filter_str@) is Panics),
        ensures
            trim(filter_str@).len() == 0 ==> res is Ok && final(self).spec_advanced() is None
                && final(self).spec_filter_mode() is None,
            trim(filter_str@).len() > 0 ==> match parse_filter(filter_str@) {
                Parse::Parsed(f) => res is Ok && final(self).spec_advanced() == Some(f)
                    && final(self).spec_filter_mode() is None
                    && final(self).spec_filter_value() is None,
                Parse::Failed(msg) => res matches Err(e) && e@ == msg && final(self).spec_advanced()
                    == old(self).spec_advanced() && final(self).spec_filter_mode() == old(
                    self,
                ).spec_filter_mode() && final(self).spec_filter_value() == old(
                    self,
                ).spec_filter_value(),
                Parse::Panics => false,
            },
            final(self).spec_processes() == old(self).spec_processes(),
            final(self).spec_filtered() == old(self).spec_filtered(),
            final(self).spec_sort() == old(self).spec_sort(),
            final(self).spec_ascending() == old(self).spec_ascending(),
    {
        let v = crate::text::chars_of(filter_str);
        let (a, b) = crate::text::trim_bounds(&v, 0, v.len());
        assert(v@.subrange(0, v.len() as int) =~= v@);
        if a == b {
            self.set_advanced_filter(None);
            return Ok(());
        }
        match self.filter_parser.parse(filter_str) {
            Ok(expr) => {
                self.set_advanced_filter(Some(expr));
                Ok(())
            },
            Err(msg) => Err(msg),
        }
    }

    /// The advanced filter in force, which the caller evaluates on each
    /// process read from the system.
    pub fn get_advanced_filter(&self) -> (res: Option<&FilterExpression>)
        ensures
            match res {
                Some(e) => self.spec_advanced() == Some(crate::filter::filter_view(*e)),
                None => self.spec_advanced() is None,
            },
    {
        match &self.advanced_filter {
            Some(e) => Some(e),
            None => None,
        }
    }

    /// The advanced filter is not written back as text.
    pub fn get_advanced_filter_string(&self) -> (res: Option<String>)
        ensures
            res is None,
    {
        None
    }

    pub fn get_processes(&self) -> (res: &Vec<ProcessInfo>)
        ensures
            views(res@) == self.spec_processes(),
    {
        &self.processes
    }

    pub fn get_filtered_processes(&self) -> (res: &Vec<ProcessInfo>)
        ensures
            views(res@) == self.spec_filtered(),
    {
        &self.filtered_processes
    }

    /// Sets the sort mode and order, and orders the processes by them.
    pub fn set_sort(&mut self, mode: &str, ascending: bool)
        ensures
            final(self).spec_sort() == Some(mode@),
            final(self).spec_ascending() == ascending,
            final(self).spec_processes() == sorted_by(old(self).spec_processes(), mode@, ascending),
            final(self).spec_filtered() == old(self).spec_filtered(),
            final(self).spec_filter_mode() == old(self).spec_filter_mode(),
            final(self).spec_filter_value() == old(self).spec_filter_value(),
            final(self).spec_advanced() == old(self).spec_advanced(),
    {
        self.sort_mode = Some(owned(mode));
        self.sort_ascending = ascending;
        let mut list: Vec<ProcessInfo> = Vec::new();
        std::mem::swap(&mut list, &mut self.processes);
        self.processes = sort_by_mode(list, mode, ascending);
    }

    /// Moves the processes that the active profile gives priority to ahead
    /// of the others, keeping the order within each part.
    pub fn apply_prioritization(&mut self, profiles: &ProfileManager)
        ensures
            final(self).spec_processes() == old(self).spec_processes().filter(
                prioritized_by(profiles.active()),
            ) + old(self).spec_processes().filter(not_prioritized_by(profiles.active())),
            final(self).spec_filtered() == old(self).spec_filtered(),
            final(self).spec_sort() == old(self).spec_sort(),
            final(self).spec_ascending() == old(self).spec_ascending(),
            final(self).spec_filter_mode() == old(self).spec_filter_mode(),
            final(self).spec_filter_value() == old(self).spec_filter_value(),
            final(self).spec_advanced() == old(self).spec_advanced(),
    {
        let ghost all = views(self.processes@);
        let ghost f = prioritized_by(profiles.active());
        let ghost g = not_prioritized_by(profiles.active());
        let mut first: Vec<ProcessInfo> = Vec::new();
        let mut second: Vec<ProcessInfo> = Vec::new();
        let mut rest: Vec<ProcessInfo> = Vec::new();
        std::mem::swap(&mut rest, &mut self.processes);
        let n = rest.len();
        let mut i: usize = 0;
        while i < n
            invariant
                n == all.len(),
                i <= n,
                rest.len() == n - i,
                views(rest@) == all.skip(i as int),
                f == prioritized_by(profiles.active()),
                g == not_prioritized_by(profiles.active()),
                views(first@) == all.take(i as int).filter(f),
                views(second@) == all.take(i as int).filter(g),
            decreases n - i,
        {
            let ghost before = rest@;
            let p = rest.remove(0);
            proof {
                assert(rest@ =~= before.drop_first());
                assert(views(rest@) =~= views(before).drop_first());
                assert(views(before)[0] == p@);
                assert(all.take(i + 1).drop_last() =~= all.take(i as int));
                assert(all.take(i + 1).last() == p@);
                reveal(Seq::filter);
            }
            if profiles.is_process_prioritized(p.name.as_str()) {
                let ghost fb = first@;
                first.push(p);
                assert(views(first@) =~= views(fb).push(all[i as int]));
            } else {
                let ghost sb = second@;
                second.push(p);
                assert(views(second@) =~= views(sb).push(all[i as int]));
            }
            i += 1;
        }
        assert(all.take(n as int) =~= all);
        let ghost fv = views(first@);
        let ghost sv = views(second@);
        first.append(&mut second);
        assert(views(first@) =~= fv + sv);
        self.processes = first;
    }

    /// The nice values that the active profile asks for and that processes
    /// do not have yet, as `(pid, nice)` in order; the caller sets them.
    pub fn nice_adjustment_plan(&self, profiles: &ProfileManager) -> (res: Vec<(u32, i32)>)
        ensures
            res@ == nice_steps(self.spec_processes(), profiles.active()),
    {
        let ghost all = views(self.processes@);
        let mut res: Vec<(u32, i32)> = Vec::new();
        let mut i: usize = 0;
        while i < self.processes.len()
            invariant
                i <= self.processes.len(),
                all == views(self.processes@),
                res@ == nice_steps(all.take(i as int), profiles.active()),
            decreases self.processes.len() - i,
        {
            let p = &self.processes[i];
            assert(all.take(i + 1).drop_last() =~= all.take(i as int));
            assert(all.take(i + 1).last() == p@);
            if let Some(n) = profiles.get_nice_adjustment(p.name.as_str()) {
                if p.nice != n {
                    res.push((p.pid, n));
                }
            }
            i += 1;
        }
        assert(all.take(self.processes.len() as int) =~= all);
        res
    }

    /// The positions of the processes to list, in order: with a profile
    /// active, those whose names none of its hide patterns match; else all.
    pub fn visible_positions(&self, profiles: &ProfileManager) -> (res: Vec<usize>)
        ensures
            res@.map_values(|i: usize| i as int) == shown_positions(self.spec_processes(), profiles.active()),
    {
        let ghost all = views(self.processes@);
        let mut res: Vec<usize> = Vec::new();
        let mut i: usize = 0;
        while i < self.processes.len()
            invariant
                i <= self.processes.len(),
                all == views(self.processes@),
                res@.map_values(|k: usize| k as int) == shown_positions(all.take(i as int), profiles.active()),
            decreases self.processes.len() - i,
        {
            let p = &self.processes[i];
            assert(all.take(i + 1).drop_last() =~= all.take(i as int));
            assert(all.take(i + 1).last() == p@);
            let ghost before = res@;
            if !profiles.should_hide_process(p.name.as_str()) {
                res.push(i);
                assert(res@.map_values(|k: usize| k as int) =~= before.map_values(|k: usize| k as int).push(i as int));
            }
            i += 1;
        }
        assert(all.take(self.processes.len() as int) =~= all);
        res
    }

    /// The tally of carrying out a nice-adjustment plan: given whether each
    /// of its calls succeeded, in order, the number of successes and the
    /// number of failures.
    pub fn nice_adjustment_counts(outcomes: &[bool]) -> (res: (usize, usize))
        ensures
            res.0 == successes(outcomes@),
            res.0 + res.1 == outcomes@.len(),
    {
        let mut ok: usize = 0;
        let mut failed: usize = 0;
        let mut i: usize = 0;
        while i < outcomes.len()
            invariant
                i <= outcomes.len(),
                ok == successes(outcomes@.take(i as int)),
                ok + failed == i,
            decreases outcomes.len() - i,
        {
            assert(outcomes@.take(i + 1).drop_last() =~= outcomes@.take(i as int));
            if outcomes[i] {
                ok += 1;
            } else {
                failed += 1;
            }
            i += 1;
        }
        assert(outcomes@.take(outcomes.len() as int) =~= outcomes@);
        (ok, failed)
    }

    /// The steps of cleaning up the idle processes with `action`, in order;
    /// the caller performs them, stopping at the first failure.
    pub fn cleanup_plan(&self, cpu_threshold_bits: u32, memory_threshold: u64, action: &str) -> (res: Vec<
        (u32, CleanupOp),
    >)
        requires
            action@ == "lower_priority"@ ==> forall|i: int|
                0 <= i < self.spec_processes().len() ==> (#[trigger] self.spec_processes()[i]).nice
                    <= i32::MAX - 5,
        ensures
            res@ == cleanup_steps(self.spec_processes(), cpu_threshold_bits, memory_threshold, action@),
    {
        let ghost all = views(self.processes@);
        let mut res: Vec<(u32, CleanupOp)> = Vec::new();
        let kill = str_eq(action, "kill");
        let stop = str_eq(action, "stop");
        let lower = str_eq(action, "lower_priority");
        proof {
            if lower {
                assert forall|m: int| 0 <= m < all.len() implies (#[trigger] all[m]).nice <= i32::MAX
                    - 5 by {
                    assert(self.spec_processes()[m] == all[m]);
                }
            }
        }
        let mut i: usize = 0;
        while i < self.processes.len()
            invariant
                i <= self.processes.len(),
                all == views(self.processes@),
                kill == (action@ == "kill"@),
                stop == (action@ == "stop"@),
                lower == (action@ == "lower_priority"@),
                lower ==> forall|m: int| 0 <= m < all.len() ==> (#[trigger] all[m]).nice <= i32::MAX - 5,
                res@ == cleanup_steps(all.take(i as int), cpu_threshold_bits, memory_threshold, action@),
            decreases self.processes.len() - i,
        {
            let p = &self.processes[i];
            assert(all.take(i + 1).drop_last() =~= all.take(i as int));
            assert(all.take(i + 1).last() == p@);
            assert(all[i as int] == p@);
            if f32_lt(p.cpu_usage_bits, cpu_threshold_bits) && p.memory_usage > memory_threshold {
                if kill {
                    res.push((p.pid, CleanupOp::Kill));
                } else if stop {
                    res.push((p.pid, CleanupOp::Stop));
                } else if lower {
                    let raised = p.nice + 5;
                    let n = if raised <= 19 { raised } else { 19 };
                    res.push((p.pid, CleanupOp::Renice(n)));
                }
            }
            i += 1;
        }
        assert(all.take(self.processes.len() as int) =~= all);
        res
    }

    /// The processes whose parent is `parent_pid`, in order.
    pub fn get_child_processes(&self, parent_pid: u32) -> (res: Vec<ProcessInfo>)
        ensures
            views(res@) == self.spec_processes().filter(child_of(parent_pid)),
    {
        let ghost all = views(self.processes@);
        let mut res: Vec<ProcessInfo> = Vec::new();
        let mut i: usize = 0;
        while i < self.processes.len()
            invariant
                i <= self.processes.len(),
                all == views(self.processes@),
                views(res@) == all.take(i as int).filter(child_of(parent_pid)),
            decreases self.processes.len() - i,
        {
            proof {
                assert(all.take(i + 1).drop_last() =~= all.take(i as int));
                assert(all.take(i + 1).last() == all[i as int]);
                reveal(Seq::filter);
            }
            if self.processes[i].parent_pid == Some(parent_pid) {
                let ghost rb = res@;
                res.push(self.processes[i].duplicate());
                assert(views(res@) =~= views(rb).push(all[i as int]));
            }
            i += 1;
        }
        assert(all.take(self.processes.len() as int) =~= all);
        res
    }

    /// The PIDs of the processes whose name contains `pattern`, in order:
    /// the processes a restart by pattern acts on.
    pub fn matching_pids(&self, pattern: &str) -> (res: Vec<u32>)
        ensures
            res@ == self.spec_processes().filter(name_contains(pattern@)).map_values(
                |p: ProcessView| p.pid,
            ),
    {
        let ghost all = views(self.processes@);
        let mut res: Vec<u32> = Vec::new();
        let mut i: usize = 0;
        while i < self.processes.len()
            invariant
                i <= self.processes.len(),
                all == views(self.processes@),
                res@ == all.take(i as int).filter(name_contains(pattern@)).map_values(
                    |p: ProcessView| p.pid,
                ),
            decreases self.processes.len() - i,
        {
            proof {
                assert(all.take(i + 1).drop_last() =~= all.take(i as int));
                assert(all.take(i + 1).last() == all[i as int]);
                reveal(Seq::filter);
            }
            if contains_exec(self.processes[i].name.as_str(), pattern) {
                let ghost rb = res@;
                res.push(self.processes[i].pid);
                assert(res@ =~= all.take(i + 1).filter(name_contains(pattern@)).map_values(
                    |p: ProcessView| p.pid,
                ));
            } else {
                assert(res@ =~= all.take(i + 1).filter(name_contains(pattern@)).map_values(
                    |p: ProcessView| p.pid,
                ));
            }
            i += 1;
        }
        assert(all.take(self.processes.len() as int) =~= all);
        res
    }

    /// Keeps, as the rule-filtered list, the processes that the rule
    /// accepted (`verdicts[i]` for process `i`).
    pub fn apply_rules(&mut self, verdicts: &[bool])
        requires
            verdicts@.len() == old(self).spec_processes().len(),
        ensures
            final(self).spec_filtered() == selected(old(self).spec_processes(), verdicts@),
            final(self).spec_processes() == old(self).spec_processes(),
            final(self).spec_sort() == old(self).spec_sort(),
            final(self).spec_ascending() == old(self).spec_ascending(),
            final(self).spec_filter_mode() == old(self).spec_filter_mode(),
            final(self).spec_filter_value() == old(self).spec_filter_value(),
            final(self).spec_advanced() == old(self).spec_advanced(),
    {
        let ghost all = views(self.processes@);
        let mut res: Vec<ProcessInfo> = Vec::new();
        let mut i: usize = 0;
        while i < self.processes.len()
            invariant
                i <= self.processes.len(),
                all == views(self.processes@),
                verdicts@.len() == all.len(),
                views(res@) == selected(all.take(i as int), verdicts@.take(i as int)),
            decreases self.processes.len() - i,
        {
            proof {
                assert(all.take(i + 1).drop_last() =~= all.take(i as int));
                assert(all.take(i + 1).last() == all[i as int]);
                assert(verdicts@.take(i + 1).drop_last() =~= verdicts@.take(i as int));
                assert(verdicts@.take(i + 1).last() == verdicts@[i as int]);
            }
            if verdicts[i] {
                let ghost rb = res@;
                res.push(self.processes[i].duplicate());
                assert(views(res@) =~= views(rb).push(all[i as int]));
            }
            i += 1;
        }
        assert(all.take(self.processes.len() as int) =~= all);
        assert(verdicts@.take(self.processes.len() as int) =~= verdicts@);
        self.filtered_processes = res;
    }
}

} // verus!
