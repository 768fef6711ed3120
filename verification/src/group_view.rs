//! The grouped view: groups of processes listed busiest first, optionally
//! with their order frozen, a cursor over them, and keys that expand a
//! group, open a container or namespace, or switch what processes are
//! grouped by.
//!
//! A group is given as a row: its ID and the bit pattern of its total CPU
//! share (an `f32` that the caller adds up from the members).

use vstd::prelude::*;
use crate::cpu::{f32_less, f32_lt};
use crate::groups::{GroupKind, GroupType};
use crate::kill_dialog::Key;
use crate::text::strings_view;
use crate::process::{slot, stable_sorted};
use crate::text::{
    chars_of, owned, parse_u64_range, parse_unsigned, push_str, split_bounds, split_on, str_eq,
    string_of,
};

verus! {

/// The model of a row: a group ID and the bits of its CPU share.
pub open spec fn rows_view(v: Seq<(String, u32)>) -> Seq<(Seq<char>, u32)> {
    v.map_values(|r: (String, u32)| (r.0@, r.1))
}

/// The IDs of `rows`, in order.
pub open spec fn row_ids(rows: Seq<(Seq<char>, u32)>) -> Seq<Seq<char>> {
    rows.map_values(|r: (Seq<char>, u32)| r.0)
}

/// Row `a` goes before row `b`: its CPU share is larger.
pub open spec fn busier() -> spec_fn((Seq<char>, u32), (Seq<char>, u32)) -> bool {
    |a: (Seq<char>, u32), b: (Seq<char>, u32)| f32_less(b.1, a.1)
}

/// `rows` busiest first; rows with equal shares (or a NaN) keep their order.
pub open spec fn by_cpu(rows: Seq<(Seq<char>, u32)>) -> Seq<(Seq<char>, u32)> {
    stable_sorted(rows, busier())
}

/// The position of the first row with ID `id`.
pub open spec fn row_index(rows: Seq<(Seq<char>, u32)>, id: Seq<char>) -> Option<int>
    decreases rows.len(),
{
    if rows.len() == 0 {
        None
    } else if rows[0].0 == id {
        Some(0)
    } else {
        match row_index(rows.drop_first(), id) {
            Some(k) => Some(k + 1),
            None => None,
        }
    }
}

/// Every ID.
pub open spec fn every_id() -> spec_fn(Seq<char>) -> bool {
    |id: Seq<char>| true
}

/// The IDs in `set`.
pub open spec fn in_set(set: Seq<Seq<char>>) -> spec_fn(Seq<char>) -> bool {
    |id: Seq<char>| set.contains(id)
}

/// Taking out, for each ID of `order` that `pick` accepts, in turn, the
/// first row left with that ID: the rows taken out, in that order, and the
/// rows left.
pub open spec fn pull(
    rows: Seq<(Seq<char>, u32)>,
    order: Seq<Seq<char>>,
    pick: spec_fn(Seq<char>) -> bool,
) -> (Seq<(Seq<char>, u32)>, Seq<(Seq<char>, u32)>)
    decreases order.len(),
{
    if order.len() == 0 {
        (seq![], rows)
    } else {
        let (p, r) = pull(rows, order.drop_last(), pick);
        let id = order.last();
        if pick(id) {
            match row_index(r, id) {
                Some(k) => (p.push(r[k]), r.remove(k)),
                None => (p, r),
            }
        } else {
            (p, r)
        }
    }
}

/// The order in which the groups are shown. With the order frozen, the
/// groups of the frozen order come first, in that order; otherwise, while
/// some groups are expanded, the expanded ones keep their frozen places
/// first. The remaining groups follow, busiest first.
pub open spec fn display_order(
    rows: Seq<(Seq<char>, u32)>,
    frozen: bool,
    frozen_order: Seq<Seq<char>>,
    expanded: Seq<Seq<char>>,
) -> Seq<(Seq<char>, u32)> {
    if frozen && frozen_order.len() > 0 {
        let (p, r) = pull(rows, frozen_order, every_id());
        p + by_cpu(r)
    } else if expanded.len() > 0 && frozen_order.len() > 0 {
        let (p, r) = pull(rows, frozen_order, in_set(expanded));
        p + by_cpu(r)
    } else {
        by_cpu(rows)
    }
}

/// The state of the grouped view. `selected` is the row of the cursor
/// among the rows shown from `scroll` on.
#[derive(Debug)]
pub struct GroupViewState {
    pub group_type: GroupType,
    pub selected: usize,
    pub scroll: usize,
    pub expanded: Vec<String>,
    pub frozen: bool,
    pub frozen_order: Vec<String>,
    pub namespace_type: Option<String>,
}

/// The model of the grouped view's state.
pub struct GroupViewModel {
    pub group_type: GroupKind,
    pub selected: usize,
    pub scroll: usize,
    pub expanded: Seq<Seq<char>>,
    pub frozen: bool,
    pub frozen_order: Seq<Seq<char>>,
    pub namespace_type: Option<Seq<char>>,
}

impl View for GroupViewState {
    type V = GroupViewModel;

    open spec fn view(&self) -> GroupViewModel {
        GroupViewModel {
            group_type: self.group_type@,
            selected: self.selected,
            scroll: self.scroll,
            expanded: strings_view(self.expanded@),
            frozen: self.frozen,
            frozen_order: strings_view(self.frozen_order@),
            namespace_type: match self.namespace_type {
                Some(t) => Some(t@),
                None => None,
            },
        }
    }
}

impl GroupViewState {
    /// The view as first opened: grouped by cgroup, nothing expanded or frozen.
    pub fn new() -> (s: Self)
        ensures
            s@ == (GroupViewModel {
                group_type: GroupKind::Cgroup,
                selected: 0,
                scroll: 0,
                expanded: seq![],
                frozen: false,
                frozen_order: seq![],
                namespace_type: None,
            }),
    {
        let s = GroupViewState {
            group_type: GroupType::Cgroup,
            selected: 0,
            scroll: 0,
            expanded: Vec::new(),
            frozen: false,
            frozen_order: Vec::new(),
            namespace_type: None,
        };
        assert(strings_view(s.expanded@) =~= seq![]);
        s
    }
}

/// What the caller does after a key.
#[derive(Debug)]
pub enum GroupEffect {
    Nothing,
    /// Back to the process list.
    Leave,
    /// Show the container with this ID.
    ContainerDetail(String),
    /// Show the namespace of this type with this inode number.
    NamespaceDetail(String, u64),
    /// Show this message (an error when the flag is set).
    Message(String, bool),
}

pub enum GroupEffectView {
    Nothing,
    Leave,
    ContainerDetail(Seq<char>),
    NamespaceDetail(Seq<char>, nat),
    Message(Seq<char>, bool),
}

impl View for GroupEffect {
    type V = GroupEffectView;

    open spec fn view(&self) -> GroupEffectView {
        match self {
            GroupEffect::Nothing => GroupEffectView::Nothing,
            GroupEffect::Leave => GroupEffectView::Leave,
            GroupEffect::ContainerDetail(id) => GroupEffectView::ContainerDetail(id@),
            GroupEffect::NamespaceDetail(t, n) => GroupEffectView::NamespaceDetail(t@, *n as nat),
            GroupEffect::Message(m, e) => GroupEffectView::Message(m@, *e),
        }
    }
}

/// `set` with `id` taken out when it is in, put in (at the end) when not.
pub open spec fn toggled_in(set: Seq<Seq<char>>, id: Seq<char>) -> Seq<Seq<char>> {
    if set.contains(id) {
        set.filter(|x: Seq<char>| x != id)
    } else {
        set.push(id)
    }
}

/// The position of the first `t` in `types`.
pub open spec fn first_index(types: Seq<Seq<char>>, t: Seq<char>) -> Option<int>
    decreases types.len(),
{
    if types.len() == 0 {
        None
    } else if types[0] == t {
        Some(0)
    } else {
        match first_index(types.drop_first(), t) {
            Some(k) => Some(k + 1),
            None => None,
        }
    }
}

/// The namespace type after the current one in `types` (the first when the
/// view is not grouped by a listed namespace type).
pub open spec fn next_namespace(current: GroupKind, types: Seq<Seq<char>>) -> Seq<char> {
    match current {
        GroupKind::Namespace(t) => match first_index(types, t) {
            Some(i) => types[(i + 1) % (types.len() as int)],
            None => types[0],
        },
        _ => types[0],
    }
}

/// The view regrouped by `kind`, from the top, unfrozen.
pub open spec fn regrouped(st: GroupViewModel, kind: GroupKind) -> GroupViewModel {
    GroupViewModel {
        group_type: kind,
        selected: 0,
        scroll: 0,
        namespace_type: None,
        frozen: false,
        frozen_order: seq![],
        ..st
    }
}

/// The rows shown from `scroll` on, as many as fit (ten).
pub open spec fn visible_rows(num: nat, scroll: usize) -> nat {
    let left: nat = if num > scroll { (num - scroll) as nat } else { 0 };
    if left < 10 {
        left
    } else {
        10
    }
}

/// The next state and effect after `key`, given the groups of the current
/// grouping (`rows`, in the order grouping gives) and the namespace types
/// there are.
pub open spec fn group_next(
    st: GroupViewModel,
    key: Key,
    rows: Seq<(Seq<char>, u32)>,
    ns_types: Seq<Seq<char>>,
) -> (GroupViewModel, GroupEffectView) {
    let shown = display_order(rows, st.frozen, st.frozen_order, st.expanded);
    let num = shown.len();
    let actual = st.scroll + st.selected;
    match key {
        Key::Esc => (
            GroupViewModel {
                selected: 0,
                scroll: 0,
                expanded: seq![],
                frozen: false,
                frozen_order: seq![],
                ..st
            },
            GroupEffectView::Leave,
        ),
        Key::Up => (
            if st.selected > 0 {
                GroupViewModel { selected: (st.selected - 1) as usize, ..st }
            } else if st.scroll > 0 {
                GroupViewModel { scroll: (st.scroll - 1) as usize, ..st }
            } else {
                st
            },
            GroupEffectView::Nothing,
        ),
        Key::Down => {
            let mv = visible_rows(num, st.scroll);
            (
                if st.selected + 1 < mv {
                    GroupViewModel { selected: (st.selected + 1) as usize, ..st }
                } else if actual + 1 < num {
                    GroupViewModel { scroll: (st.scroll + 1) as usize, selected: (mv - 1) as usize, ..st }
                } else {
                    st
                },
                GroupEffectView::Nothing,
            )
        },
        Key::Enter => if num == 0 {
            (st, GroupEffectView::Nothing)
        } else {
            let idx = if actual < num { actual } else { (num - 1) as int };
            let id = shown[idx].0;
            match st.group_type {
                GroupKind::Container => (st, GroupEffectView::ContainerDetail(id)),
                GroupKind::Namespace(t) => {
                    let parts = split_on(id, ':');
                    if parts.len() > 1 {
                        match parse_unsigned(parts[1], u64::MAX as nat) {
                            Some(n) => (st, GroupEffectView::NamespaceDetail(t, n)),
                            None => (
                                st,
                                GroupEffectView::Message("Invalid namespace ID format: "@ + parts[1], true),
                            ),
                        }
                    } else {
                        (st, GroupEffectView::Message("Invalid namespace group format: "@ + id, true))
                    }
                },
                _ => (GroupViewModel { expanded: toggled_in(st.expanded, id), ..st }, GroupEffectView::Nothing),
            }
        },
        Key::Char(c) => if c == 'f' || c == 'F' {
            if !st.frozen {
                (
                    GroupViewModel { frozen: true, frozen_order: row_ids(by_cpu(rows)), ..st },
                    GroupEffectView::Message("Group order frozen - expanded groups will stay in place"@, false),
                )
            } else {
                (
                    GroupViewModel { frozen: false, frozen_order: seq![], ..st },
                    GroupEffectView::Message("Group order unfrozen - groups will sort by CPU"@, false),
                )
            }
        } else if c == '1' {
            (regrouped(st, GroupKind::Cgroup), GroupEffectView::Nothing)
        } else if c == '2' {
            (regrouped(st, GroupKind::Container), GroupEffectView::Nothing)
        } else if c == '4' {
            (regrouped(st, GroupKind::Username), GroupEffectView::Nothing)
        } else if c == '3' {
            if ns_types.len() == 0 {
                (
                    GroupViewModel { selected: 0, scroll: 0, ..st },
                    GroupEffectView::Message("No namespace types available"@, true),
                )
            } else {
                let t = next_namespace(st.group_type, ns_types);
                (
                    GroupViewModel {
                        group_type: GroupKind::Namespace(t),
                        namespace_type: Some(t),
                        selected: 0,
                        scroll: 0,
                        ..st
                    },
                    GroupEffectView::Nothing,
                )
            }
        } else {
            (st, GroupEffectView::Nothing)
        },
        _ => (st, GroupEffectView::Nothing),
    }
}

/// Taking out every ID of `order` (no ID twice, each the ID of some row)
/// takes out one row per ID, in the order of `order`, and leaves every row
/// whose ID is not in `order`.
proof fn lemma_pull_every_id(rows: Seq<(Seq<char>, u32)>, order: Seq<Seq<char>>)
    requires
        order.no_duplicates(),
        forall|i: int| 0 <= i < order.len() ==> row_ids(rows).contains(#[trigger] order[i]),
        order.len() <= rows.len(),
    ensures
        row_ids(pull(rows, order, every_id()).0) == order,
        pull(rows, order, every_id()).1.len() == rows.len() - order.len(),
        forall|id: Seq<char>|
            row_ids(rows).contains(id) && !order.contains(id) ==> row_ids(
                pull(rows, order, every_id()).1,
            ).contains(id),
    decreases order.len(),
{
    if order.len() > 0 {
        let o2 = order.drop_last();
        assert forall|i: int| 0 <= i < o2.len() implies row_ids(rows).contains(#[trigger] o2[i]) by {
            assert(o2[i] == order[i]);
        }
        assert(o2.no_duplicates()) by {
            assert forall|i: int, j: int| 0 <= i < o2.len() && 0 <= j < o2.len() && i != j implies o2[i]
                != o2[j] by {
                assert(o2[i] == order[i] && o2[j] == order[j]);
            }
        }
        lemma_pull_every_id(rows, o2);
        let (p, r) = pull(rows, o2, every_id());
        let id = order.last();
        assert(row_ids(rows).contains(order[order.len() - 1]));
        assert(!o2.contains(id)) by {
            if o2.contains(id) {
                let i = choose|i: int| 0 <= i < o2.len() && o2[i] == id;
                assert(order[i] == order[order.len() - 1]);
            }
        }
        assert(row_ids(r).contains(id));
        lemma_row_index(r, id);
        let k = row_index(r, id)->0;
        if row_index(r, id) is None {
            let j = choose|j: int| 0 <= j < row_ids(r).len() && row_ids(r)[j] == id;
            lemma_row_index_finds(r, id, j);
        }
        assert(row_ids(p.push(r[k])) =~= o2.push(id));
        assert(o2.push(id) =~= order);
        assert forall|x: Seq<char>| row_ids(rows).contains(x) && !order.contains(x) implies row_ids(
            r.remove(k),
        ).contains(x) by {
            assert(!o2.contains(x)) by {
                if o2.contains(x) {
                    let i = choose|i: int| 0 <= i < o2.len() && o2[i] == x;
                    assert(order[i] == x);
                }
            }
            assert(x != id) by {
                assert(order[order.len() - 1] == id);
            }
            let j = choose|j: int| 0 <= j < row_ids(r).len() && row_ids(r)[j] == x;
            if j < k {
                assert(row_ids(r.remove(k))[j] == x);
            } else {
                assert(j != k);
                assert(row_ids(r.remove(k))[j - 1] == x);
            }
        }
    }
}

proof fn lemma_row_index_finds(rows: Seq<(Seq<char>, u32)>, id: Seq<char>, j: int)
    requires
        0 <= j < rows.len(),
        rows[j].0 == id,
    ensures
        row_index(rows, id) is Some,
    decreases j,
{
    if rows[0].0 != id {
        lemma_row_index_finds(rows.drop_first(), id, j - 1);
    }
}

/// Law: while the order is frozen and lists each group shown exactly once,
/// the groups are shown in exactly the frozen order, whatever their CPU
/// shares and whatever is expanded.
pub proof fn lemma_frozen_order_holds(
    rows: Seq<(Seq<char>, u32)>,
    order: Seq<Seq<char>>,
    expanded: Seq<Seq<char>>,
)
    requires
        order.len() > 0,
        order.no_duplicates(),
        order.len() == rows.len(),
        forall|i: int| 0 <= i < order.len() ==> row_ids(rows).contains(#[trigger] order[i]),
    ensures
        row_ids(display_order(rows, true, order, expanded)) == order,
{
    lemma_pull_every_id(rows, order);
    let (p, r) = pull(rows, order, every_id());
    assert(r.len() == 0);
    assert(by_cpu(r) =~= r);
    assert(p + by_cpu(r) =~= p);
}

// ---------------------------------------------------------------------------
// Ordering the rows
// ---------------------------------------------------------------------------

fn copy_row(r: &(String, u32)) -> (res: (String, u32))
    ensures
        res.0@ == r.0@,
        res.1 == r.1,
{
    (owned(r.0.as_str()), r.1)
}

proof fn lemma_rows_view_push(v: Seq<(String, u32)>, x: (String, u32))
    ensures
        rows_view(v.push(x)) == rows_view(v).push((x.0@, x.1)),
{
    assert(rows_view(v.push(x)) =~= rows_view(v).push((x.0@, x.1)));
}

/// `rows` busiest first, stably.
pub fn sort_rows_by_cpu(rows: Vec<(String, u32)>) -> (res: Vec<(String, u32)>)
    ensures
        rows_view(res@) == by_cpu(rows_view(rows@)),
{
    let ghost lt = busier();
    let ghost all = rows_view(rows@);
    let mut rest = rows;
    let mut out: Vec<(String, u32)> = Vec::new();
    let n = rest.len();
    let mut i: usize = 0;
    assert(all.take(0) =~= Seq::<(Seq<char>, u32)>::empty());
    assert(rows_view(out@) =~= Seq::<(Seq<char>, u32)>::empty());
    while i < n
        invariant
            n == all.len(),
            i <= n,
            lt == busier(),
            rows_view(rest@) == all.skip(i as int),
            rest.len() == n - i,
            rows_view(out@) == stable_sorted(all.take(i as int), lt),
        decreases n - i,
    {
        let ghost before = rest@;
        let x = rest.remove(0);
        proof {
            assert(rest@ =~= before.drop_first());
            assert(rows_view(rest@) =~= rows_view(before).drop_first());
            assert(rows_view(rest@) =~= all.skip(i + 1));
            assert(rows_view(before)[0] == (before[0].0@, before[0].1));
            assert((x.0@, x.1) == all[i as int]);
            assert(all.take(i + 1).drop_last() =~= all.take(i as int));
            assert(all.take(i + 1).last() == all[i as int]);
        }
        let ghost ov = rows_view(out@);
        let mut j = out.len();
        assert(ov.take(j as int) =~= ov);
        while j > 0 && f32_lt(out[j - 1].1, x.1)
            invariant
                j <= out.len(),
                ov == rows_view(out@),
                lt == busier(),
                slot(ov, (x.0@, x.1), lt) == slot(ov.take(j as int), (x.0@, x.1), lt),
            decreases j,
        {
            assert(ov.take(j as int).drop_last() =~= ov.take(j - 1));
            assert(ov.take(j as int).last() == ov[j - 1]);
            assert(ov[j - 1].1 == out@[j - 1].1);
            j -= 1;
        }
        proof {
            if j > 0 {
                assert(ov.take(j as int).last() == ov[j - 1]);
                assert(ov[j - 1].1 == out@[j - 1].1);
            }
            assert(ov.take(ov.len() as int) =~= ov);
        }
        out.insert(j, x);
        assert(rows_view(out@) =~= ov.insert(j as int, (x.0@, x.1)));
        i += 1;
    }
    assert(all.take(n as int) =~= all);
    out
}

/// The position of the first row of `rows` with ID `id`.
fn find_row(rows: &Vec<(String, u32)>, id: &str) -> (res: Option<usize>)
    ensures
        match row_index(rows_view(rows@), id@) {
            Some(k) => res == Some(k as usize),
            None => res is None,
        },
        res matches Some(k) ==> k < rows.len(),
{
    let ghost rv = rows_view(rows@);
    let mut i: usize = 0;
    assert(rv.skip(0) =~= rv);
    while i < rows.len()
        invariant
            i <= rows.len(),
            rv == rows_view(rows@),
            row_index(rv, id@) == match row_index(rv.skip(i as int), id@) {
                Some(k) => Some(k + i),
                None => None,
            },
        decreases rows.len() - i,
    {
        assert(rv.skip(i as int)[0] == (rows@[i as int].0@, rows@[i as int].1));
        assert(rv.skip(i as int).drop_first() =~= rv.skip(i + 1));
        if str_eq(rows[i].0.as_str(), id) {
            return Some(i);
        }
        i += 1;
    }
    None
}

proof fn lemma_row_index(rows: Seq<(Seq<char>, u32)>, id: Seq<char>)
    ensures
        row_index(rows, id) matches Some(k) ==> 0 <= k < rows.len() && rows[k].0 == id,
    decreases rows.len(),
{
    if rows.len() > 0 && rows[0].0 != id {
        lemma_row_index(rows.drop_first(), id);
    }
}

/// Whether `id` is one of `set`.
fn has_id(set: &[String], id: &str) -> (res: bool)
    ensures
        res == strings_view(set@).contains(id@),
{
    let mut i: usize = 0;
    while i < set.len()
        invariant
            i <= set.len(),
            forall|k: int| 0 <= k < i ==> strings_view(set@)[k] != id@,
        decreases set.len() - i,
    {
        assert(strings_view(set@)[i as int] == set@[i as int]@);
        if str_eq(set[i].as_str(), id) {
            return true;
        }
        i += 1;
    }
    false
}

/// The rows taken out for `order`, and those left (see `pull`); with
/// `only_expanded`, only the IDs in `expanded` are taken out.
fn pull_rows(
    rows: Vec<(String, u32)>,
    order: &[String],
    only_expanded: bool,
    expanded: &[String],
) -> (res: (Vec<(String, u32)>, Vec<(String, u32)>))
    ensures
        (rows_view(res.0@), rows_view(res.1@)) == pull(
            rows_view(rows@),
            strings_view(order@),
            if only_expanded {
                in_set(strings_view(expanded@))
            } else {
                every_id()
            },
        ),
{
    let ghost pick = if only_expanded {
        in_set(strings_view(expanded@))
    } else {
        every_id()
    };
    let ghost all = rows_view(rows@);
    let ghost ov = strings_view(order@);
    let mut taken: Vec<(String, u32)> = Vec::new();
    let mut rest = rows;
    let mut i: usize = 0;
    assert(ov.take(0) =~= Seq::<Seq<char>>::empty());
    assert(rows_view(taken@) =~= Seq::<(Seq<char>, u32)>::empty());
    while i < order.len()
        invariant
            i <= order.len(),
            ov == strings_view(order@),
            all == rows_view(rows@),
            pick == (if only_expanded {
                in_set(strings_view(expanded@))
            } else {
                every_id()
            }),
            (rows_view(taken@), rows_view(rest@)) == pull(all, ov.take(i as int), pick),
        decreases order.len() - i,
    {
        assert(ov.take(i + 1).drop_last() =~= ov.take(i as int));
        assert(ov.take(i + 1).last() == ov[i as int]);
        assert(ov[i as int] == order@[i as int]@);
        let wanted = if only_expanded {
            has_id(expanded, order[i].as_str())
        } else {
            true
        };
        if wanted {
            proof {
                lemma_row_index(rows_view(rest@), ov[i as int]);
            }
            match find_row(&rest, order[i].as_str()) {
                Some(k) => {
                    let ghost rb = rest@;
                    let ghost tb = taken@;
                    let row = rest.remove(k);
                    taken.push(row);
                    proof {
                        lemma_rows_view_push(tb, rb[k as int]);
                        assert(rest@ =~= rb.remove(k as int));
                        assert(rows_view(rest@) =~= rows_view(rb).remove(k as int));
                    }
                },
                None => {},
            }
        }
        i += 1;
    }
    assert(ov.take(order.len() as int) =~= ov);
    (taken, rest)
}

/// The rows in the order the grouped view shows them (see `display_order`).
pub fn group_display_order(
    rows: Vec<(String, u32)>,
    frozen: bool,
    frozen_order: &[String],
    expanded: &[String],
) -> (res: Vec<(String, u32)>)
    ensures
        rows_view(res@) == display_order(
            rows_view(rows@),
            frozen,
            strings_view(frozen_order@),
            strings_view(expanded@),
        ),
{
    if frozen && frozen_order.len() > 0 {
        let (mut taken, rest) = pull_rows(rows, frozen_order, false, expanded);
        let mut sorted = sort_rows_by_cpu(rest);
        let ghost t = rows_view(taken@);
        let ghost s = rows_view(sorted@);
        taken.append(&mut sorted);
        assert(rows_view(taken@) =~= t + s);
        taken
    } else if expanded.len() > 0 && frozen_order.len() > 0 {
        let (mut taken, rest) = pull_rows(rows, frozen_order, true, expanded);
        let mut sorted = sort_rows_by_cpu(rest);
        let ghost t = rows_view(taken@);
        let ghost s = rows_view(sorted@);
        taken.append(&mut sorted);
        assert(rows_view(taken@) =~= t + s);
        taken
    } else {
        sort_rows_by_cpu(rows)
    }
}

// ---------------------------------------------------------------------------
// Keys
// ---------------------------------------------------------------------------

fn copy_rows(rows: &[(String, u32)]) -> (res: Vec<(String, u32)>)
    ensures
        rows_view(res@) == rows_view(rows@),
{
    let mut res: Vec<(String, u32)> = Vec::new();
    let mut i: usize = 0;
    while i < rows.len()
        invariant
            i <= rows.len(),
            rows_view(res@) == rows_view(rows@).take(i as int),
        decreases rows.len() - i,
    {
        let ghost before = res@;
        res.push(copy_row(&rows[i]));
        proof {
            lemma_rows_view_push(before, res@[i as int]);
            assert(rows_view(rows@).take(i + 1) =~= rows_view(rows@).take(i as int).push(
                rows_view(rows@)[i as int],
            ));
        }
        i += 1;
    }
    assert(rows_view(rows@).take(rows.len() as int) =~= rows_view(rows@));
    res
}

/// The IDs of `rows`, in order.
fn ids_of(rows: &Vec<(String, u32)>) -> (res: Vec<String>)
    ensures
        strings_view(res@) == row_ids(rows_view(rows@)),
{
    let mut res: Vec<String> = Vec::new();
    let mut i: usize = 0;
    while i < rows.len()
        invariant
            i <= rows.len(),
            strings_view(res@) == row_ids(rows_view(rows@)).take(i as int),
        decreases rows.len() - i,
    {
        let ghost before = res@;
        res.push(owned(rows[i].0.as_str()));
        assert(strings_view(res@) =~= strings_view(before).push(rows@[i as int].0@));
        assert(row_ids(rows_view(rows@)).take(i + 1) =~= row_ids(rows_view(rows@)).take(i as int).push(
            rows@[i as int].0@,
        ));
        i += 1;
    }
    assert(row_ids(rows_view(rows@)).take(rows.len() as int) =~= row_ids(rows_view(rows@)));
    res
}

/// `set` with `id` put in, or taken out when it is in (see `toggled_in`).
fn toggle_id(set: Vec<String>, id: &str) -> (res: Vec<String>)
    ensures
        strings_view(res@) == toggled_in(strings_view(set@), id@),
{
    if !has_id(set.as_slice(), id) {
        let mut set = set;
        let ghost before = set@;
        set.push(owned(id));
        assert(strings_view(set@) =~= strings_view(before).push(id@));
        return set;
    }
    let ghost sv = strings_view(set@);
    let mut res: Vec<String> = Vec::new();
    let mut i: usize = 0;
    while i < set.len()
        invariant
            i <= set.len(),
            sv == strings_view(set@),
            strings_view(res@) == sv.take(i as int).filter(|x: Seq<char>| x != id@),
        decreases set.len() - i,
    {
        proof {
            assert(sv.take(i + 1).drop_last() =~= sv.take(i as int));
            assert(sv.take(i + 1).last() == sv[i as int]);
            assert(sv[i as int] == set@[i as int]@);
            reveal(Seq::filter);
        }
        if !str_eq(set[i].as_str(), id) {
            let ghost before = res@;
            res.push(owned(set[i].as_str()));
            assert(strings_view(res@) =~= strings_view(before).push(sv[i as int]));
        }
        i += 1;
    }
    assert(sv.take(set.len() as int) =~= sv);
    res
}

/// The namespace type after the current one (see `next_namespace`).
fn namespace_after(current: &GroupType, types: &[String]) -> (res: String)
    requires
        types.len() > 0,
    ensures
        res@ == next_namespace(current@, strings_view(types@)),
{
    let ghost tv = strings_view(types@);
    assert(tv[0] == types@[0]@);
    match current {
        GroupType::Namespace(t) => {
            let mut i: usize = 0;
            assert(tv.skip(0) =~= tv);
            while i < types.len()
                invariant
                    i <= types.len(),
                    tv == strings_view(types@),
                    current@ == GroupKind::Namespace(t@),
                    first_index(tv, t@) == match first_index(tv.skip(i as int), t@) {
                        Some(k) => Some(k + i),
                        None => None,
                    },
                decreases types.len() - i,
            {
                assert(tv.skip(i as int)[0] == types@[i as int]@);
                assert(tv.skip(i as int).drop_first() =~= tv.skip(i + 1));
                if str_eq(types[i].as_str(), t.as_str()) {
                    assert(first_index(tv.skip(i as int), t@) == Some(0int));
                    assert(first_index(tv, t@) == Some(i as int));
                    assert(tv.len() == types.len());
                    let j = (i + 1) % types.len();
                    assert(j as int == (i as int + 1) % (tv.len() as int));
                    assert(tv[j as int] == types@[j as int]@);
                    assert(current@ == GroupKind::Namespace(t@));
                    assert(next_namespace(current@, tv) == tv[j as int]);
                    return owned(types[j].as_str());
                }
                i += 1;
            }
            owned(types[0].as_str())
        },
        _ => owned(types[0].as_str()),
    }
}

/// What Enter does to the group with ID `id`.
fn enter_group(st: GroupViewState, id: &str) -> (res: (GroupViewState, GroupEffect))
    ensures
        (res.0@, res.1@) == (match st@.group_type {
            GroupKind::Container => (st@, GroupEffectView::ContainerDetail(id@)),
            GroupKind::Namespace(t) => {
                let parts = split_on(id@, ':');
                if parts.len() > 1 {
                    match parse_unsigned(parts[1], u64::MAX as nat) {
                        Some(n) => (st@, GroupEffectView::NamespaceDetail(t, n)),
                        None => (
                            st@,
                            GroupEffectView::Message("Invalid namespace ID format: "@ + parts[1], true),
                        ),
                    }
                } else {
                    (st@, GroupEffectView::Message("Invalid namespace group format: "@ + id@, true))
                }
            },
            _ => (
                GroupViewModel { expanded: toggled_in(st@.expanded, id@), ..st@ },
                GroupEffectView::Nothing,
            ),
        }),
{
    match &st.group_type {
        GroupType::Container => {
            return (st, GroupEffect::ContainerDetail(owned(id)));
        },
        GroupType::Namespace(t) => {
            let v = chars_of(id);
            let b = split_bounds(&v, 0, v.len(), ':');
            assert(v@.subrange(0, v.len() as int) =~= id@);
            let ns = owned(t.as_str());
            if b.len() > 1 {
                let (lo, hi) = b[1];
                match parse_u64_range(&v, lo, hi) {
                    Some(n) => {
                        return (st, GroupEffect::NamespaceDetail(ns, n));
                    },
                    None => {
                        let mut m = owned("Invalid namespace ID format: ");
                        let piece = string_of(&v, lo, hi);
                        push_str(&mut m, piece.as_str());
                        return (st, GroupEffect::Message(m, true));
                    },
                }
            } else {
                let mut m = owned("Invalid namespace group format: ");
                push_str(&mut m, id);
                return (st, GroupEffect::Message(m, true));
            }
        },
        _ => {},
    }
    let mut st = st;
    let mut expanded: Vec<String> = Vec::new();
    std::mem::swap(&mut expanded, &mut st.expanded);
    st.expanded = toggle_id(expanded, id);
    (st, GroupEffect::Nothing)
}

/// Moves the grouped view on after `key`. `rows` are the groups of the
/// current grouping, in the order grouping gives them, with the bits of
/// their CPU totals; `ns_types` are the namespace types there are. The next
/// state and effect are those that `group_next` gives.
pub fn grouped_view_step(
    st: GroupViewState,
    key: Key,
    rows: &[(String, u32)],
    ns_types: &[String],
) -> (res: (GroupViewState, GroupEffect))
    requires
        st.scroll + st.selected < usize::MAX,
    ensures
        (res.0@, res.1@) == group_next(st@, key, rows_view(rows@), strings_view(ns_types@)),
{
    let mut st = st;
    match key {
        Key::Esc => {
            st.selected = 0;
            st.scroll = 0;
            st.expanded = Vec::new();
            st.frozen = false;
            st.frozen_order = Vec::new();
            assert(strings_view(st.expanded@) =~= seq![]);
            assert(strings_view(st.frozen_order@) =~= seq![]);
            (st, GroupEffect::Leave)
        },
        Key::Up => {
            if st.selected > 0 {
                st.selected = st.selected - 1;
            } else if st.scroll > 0 {
                st.scroll = st.scroll - 1;
            }
            (st, GroupEffect::Nothing)
        },
        Key::Down => {
            let shown = group_display_order(
                copy_rows(rows),
                st.frozen,
                st.frozen_order.as_slice(),
                st.expanded.as_slice(),
            );
            let num = shown.len();
            let left = if num > st.scroll { num - st.scroll } else { 0 };
            let mv = if left < 10 { left } else { 10 };
            if st.selected + 1 < mv {
                st.selected = st.selected + 1;
            } else if st.scroll + st.selected + 1 < num {
                st.scroll = st.scroll + 1;
                st.selected = mv - 1;
            }
            (st, GroupEffect::Nothing)
        },
        Key::Enter => {
            let shown = group_display_order(
                copy_rows(rows),
                st.frozen,
                st.frozen_order.as_slice(),
                st.expanded.as_slice(),
            );
            let num = shown.len();
            if num == 0 {
                return (st, GroupEffect::Nothing);
            }
            let actual = st.scroll + st.selected;
            let idx = if actual < num { actual } else { num - 1 };
            assert(rows_view(shown@)[idx as int].0 == shown@[idx as int].0@);
            enter_group(st, shown[idx].0.as_str())
        },
        Key::Char(c) => {
            if c == 'f' || c == 'F' {
                if !st.frozen {
                    let sorted = sort_rows_by_cpu(copy_rows(rows));
                    st.frozen = true;
                    st.frozen_order = ids_of(&sorted);
                    proof {
                        reveal_strlit("Group order frozen - expanded groups will stay in place");
                    }
                    (
                        st,
                        GroupEffect::Message(
                            owned("Group order frozen - expanded groups will stay in place"),
                            false,
                        ),
                    )
                } else {
                    st.frozen = false;
                    st.frozen_order = Vec::new();
                    assert(strings_view(st.frozen_order@) =~= seq![]);
                    (st, GroupEffect::Message(owned("Group order unfrozen - groups will sort by CPU"), false))
                }
            } else if c == '1' || c == '2' || c == '4' {
                st.group_type = if c == '1' {
                    GroupType::Cgroup
                } else if c == '2' {
                    GroupType::Container
                } else {
                    GroupType::Username
                };
                st.selected = 0;
                st.scroll = 0;
                st.namespace_type = None;
                st.frozen = false;
                st.frozen_order = Vec::new();
                assert(strings_view(st.frozen_order@) =~= seq![]);
                (st, GroupEffect::Nothing)
            } else if c == '3' {
                if ns_types.len() == 0 {
                    st.selected = 0;
                    st.scroll = 0;
                    (st, GroupEffect::Message(owned("No namespace types available"), true))
                } else {
                    let t = namespace_after(&st.group_type, ns_types);
                    st.namespace_type = Some(owned(t.as_str()));
                    st.group_type = GroupType::Namespace(t);
                    st.selected = 0;
                    st.scroll = 0;
                    (st, GroupEffect::Nothing)
                }
            } else {
                (st, GroupEffect::Nothing)
            }
        },
        _ => (st, GroupEffect::Nothing),
    }
}

} // verus!
