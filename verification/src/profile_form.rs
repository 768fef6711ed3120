//! Reading a profile from the fields of the profile editor: comma-separated
//! patterns to prioritise and to hide, and comma-separated `pattern:nice`
//! pairs.

use vstd::prelude::*;
use crate::kill_dialog::Key;
use crate::profile::{Profile, ProfileManager, other_name};
use crate::task_form::{cleanup_fields, trim_each};
use crate::text::{
    backspaced, chars_of, i32_string, is_digit, is_ws, lemma_parse_signed_decimal, lemma_signed_decimal_chars,
    lemma_split_on_joined, lemma_trim_of_trimmed, lemma_split_on_without, lemma_trim_after_space, push_char, parse_i32, parse_signed, push_str, signed_decimal, split_bounds, split_on, str_eq,
    string_of, strings_view, trim, trim_bounds, owned,
};

verus! {

/// The non-empty trimmed comma-separated items of `s`.
pub open spec fn list_field(s: Seq<char>) -> Seq<Seq<char>> {
    trim_each(split_on(s, ',')).filter(|p: Seq<char>| p.len() > 0)
}

/// The pair a `pattern:nice` item gives: exactly two `:`-separated parts,
/// the second (trimmed) an `i32`.
pub open spec fn nice_entry(item: Seq<char>) -> Option<(Seq<char>, i32)> {
    let parts = split_on(item, ':');
    if parts.len() == 2 {
        match parse_signed(trim(parts[1]), 0x8000_0000, i32::MAX as nat) {
            Some(v) => Some((trim(parts[0]), v as i32)),
            None => None,
        }
    } else {
        None
    }
}

/// The position of the pair for `pattern`.
pub open spec fn pattern_index(pairs: Seq<(Seq<char>, i32)>, pattern: Seq<char>) -> Option<int>
    decreases pairs.len(),
{
    if pairs.len() == 0 {
        None
    } else if pairs[0].0 == pattern {
        Some(0)
    } else {
        match pattern_index(pairs.drop_first(), pattern) {
            Some(k) => Some(k + 1),
            None => None,
        }
    }
}

/// `pairs` with `e` set: a pair of the same pattern takes the new value,
/// else `e` is added at the end.
pub open spec fn with_entry(pairs: Seq<(Seq<char>, i32)>, e: (Seq<char>, i32)) -> Seq<(Seq<char>, i32)> {
    match pattern_index(pairs, e.0) {
        Some(i) => pairs.update(i, e),
        None => pairs.push(e),
    }
}

/// The nice values the items give, in order, a later item for a pattern
/// overriding an earlier one.
pub open spec fn nice_pairs(items: Seq<Seq<char>>) -> Seq<(Seq<char>, i32)>
    decreases items.len(),
{
    if items.len() == 0 {
        seq![]
    } else {
        let acc = nice_pairs(items.drop_last());
        match nice_entry(items.last()) {
            Some(e) => with_entry(acc, e),
            None => acc,
        }
    }
}

/// The nice values of the nice field.
pub open spec fn nice_field(s: Seq<char>) -> Seq<(Seq<char>, i32)> {
    nice_pairs(split_on(s, ','))
}

pub open spec fn pair_views(v: Seq<(String, i32)>) -> Seq<(Seq<char>, i32)> {
    v.map_values(|p: (String, i32)| (p.0@, p.1))
}

/// No pattern occurs twice.
pub open spec fn distinct_patterns(pairs: Seq<(Seq<char>, i32)>) -> bool {
    forall|i: int, j: int| 0 <= i < j < pairs.len() ==> pairs[i].0 != pairs[j].0
}

proof fn lemma_pattern_index(pairs: Seq<(Seq<char>, i32)>, pattern: Seq<char>)
    ensures
        pattern_index(pairs, pattern) matches Some(k) ==> 0 <= k < pairs.len() && pairs[k].0 == pattern,
        pattern_index(pairs, pattern) is None ==> forall|k: int| 0 <= k < pairs.len() ==> pairs[k].0 != pattern,
    decreases pairs.len(),
{
    if pairs.len() > 0 {
        lemma_pattern_index(pairs.drop_first(), pattern);
        if pairs[0].0 != pattern {
            assert forall|k: int| 0 < k < pairs.len() implies pairs[k] == pairs.drop_first()[k - 1] by {}
        }
    }
}

proof fn lemma_with_entry_distinct(pairs: Seq<(Seq<char>, i32)>, e: (Seq<char>, i32))
    requires
        distinct_patterns(pairs),
    ensures
        distinct_patterns(with_entry(pairs, e)),
{
    lemma_pattern_index(pairs, e.0);
}

/// Law: the nice values read from the editor never name a pattern twice.
pub proof fn lemma_nice_pairs_distinct(items: Seq<Seq<char>>)
    ensures
        distinct_patterns(nice_pairs(items)),
    decreases items.len(),
{
    if items.len() > 0 {
        lemma_nice_pairs_distinct(items.drop_last());
        if let Some(e) = nice_entry(items.last()) {
            lemma_with_entry_distinct(nice_pairs(items.drop_last()), e);
        }
    }
}

fn list_of(s: &str) -> (res: Vec<String>)
    ensures
        strings_view(res@) == list_field(s@),
{
    let parts = cleanup_fields(s);
    let ghost pv = strings_view(parts@);
    let mut res: Vec<String> = Vec::new();
    let mut i: usize = 0;
    while i < parts.len()
        invariant
            i <= parts.len(),
            pv == strings_view(parts@),
            pv == trim_each(split_on(s@, ',')),
            strings_view(res@) == pv.take(i as int).filter(|p: Seq<char>| p.len() > 0),
        decreases parts.len() - i,
    {
        proof {
            assert(pv.take(i + 1).drop_last() =~= pv.take(i as int));
            assert(pv.take(i + 1).last() == parts@[i as int]@);
            reveal(Seq::filter);
        }
        if chars_of(parts[i].as_str()).len() > 0 {
            let ghost before = res@;
            res.push(owned(parts[i].as_str()));
            assert(strings_view(res@) =~= strings_view(before).push(parts@[i as int]@));
        }
        i += 1;
    }
    assert(pv.take(parts.len() as int) =~= pv);
    res
}

/// The pair of one item of the nice field (see `nice_entry`).
fn entry_of(v: &Vec<char>, lo: usize, hi: usize) -> (res: Option<(String, i32)>)
    requires
        lo <= hi <= v.len(),
    ensures
        match nice_entry(v@.subrange(lo as int, hi as int)) {
            Some(e) => res matches Some(r) && r.0@ == e.0 && r.1 == e.1,
            None => res is None,
        },
{
    let b = split_bounds(v, lo, hi, ':');
    if b.len() != 2 {
        return None;
    }
    let (a0, a1) = b[0];
    let (b0, b1) = b[1];
    let (p0, p1) = trim_bounds(v, a0, a1);
    let (q0, q1) = trim_bounds(v, b0, b1);
    let value = string_of(v, q0, q1);
    match parse_i32(value.as_str()) {
        Some(n) => Some((string_of(v, p0, p1), n)),
        None => None,
    }
}

/// `pairs` with `e` set (see `with_entry`).
fn set_entry(pairs: Vec<(String, i32)>, e: (String, i32)) -> (res: Vec<(String, i32)>)
    ensures
        pair_views(res@) == with_entry(pair_views(pairs@), (e.0@, e.1)),
{
    let ghost pv = pair_views(pairs@);
    let mut pairs = pairs;
    let mut i: usize = 0;
    assert(pv.skip(0) =~= pv);
    while i < pairs.len() && !str_eq(pairs[i].0.as_str(), e.0.as_str())
        invariant
            i <= pairs.len(),
            pv == pair_views(pairs@),
            pattern_index(pv, e.0@) == match pattern_index(pv.skip(i as int), e.0@) {
                Some(k) => Some(k + i),
                None => None,
            },
        decreases pairs.len() - i,
    {
        assert(pv.skip(i as int)[0] == pv[i as int]);
        assert(pv.skip(i as int).drop_first() =~= pv.skip(i + 1));
        i += 1;
    }
    if i < pairs.len() {
        assert(pv.skip(i as int)[0] == pv[i as int]);
        assert(pattern_index(pv, e.0@) == Some(i as int));
        let ghost ev = (e.0@, e.1);
        pairs.set(i, e);
        assert(pair_views(pairs@) =~= pv.update(i as int, ev));
    } else {
        assert(pv.skip(i as int) =~= Seq::<(Seq<char>, i32)>::empty());
        let ghost ev = (e.0@, e.1);
        pairs.push(e);
        assert(pair_views(pairs@) =~= pv.push(ev));
    }
    pairs
}

proof fn lemma_nice_pairs_step(items: Seq<Seq<char>>, i: int)
    requires
        0 <= i < items.len(),
    ensures
        nice_pairs(items.take(i + 1)) == match nice_entry(items[i]) {
            Some(e) => with_entry(nice_pairs(items.take(i)), e),
            None => nice_pairs(items.take(i)),
        },
{
    assert(items.take(i + 1).drop_last() =~= items.take(i));
    assert(items.take(i + 1).last() == items[i]);
}

#[verifier::rlimit(40)]
fn nice_of(s: &str) -> (res: Vec<(String, i32)>)
    ensures
        pair_views(res@) == nice_field(s@),
{
    let v = chars_of(s);
    let b = split_bounds(&v, 0, v.len(), ',');
    assert(v@.subrange(0, v.len() as int) =~= s@);
    let ghost items = split_on(s@, ',');
    let mut res: Vec<(String, i32)> = Vec::new();
    let mut i: usize = 0;
    assert(pair_views(res@) =~= Seq::<(Seq<char>, i32)>::empty());
    assert(items.take(0) =~= Seq::<Seq<char>>::empty());
    while i < b.len()
        invariant
            i <= b.len() == items.len(),
            v@ == s@,
            items == split_on(s@, ','),
            forall|k: int|
                0 <= k < b.len() ==> {
                    &&& (#[trigger] b[k]).0 <= b[k].1 <= v.len()
                    &&& v@.subrange(b[k].0 as int, b[k].1 as int) == items[k]
                },
            pair_views(res@) == nice_pairs(items.take(i as int)),
        decreases b.len() - i,
    {
        let (lo, hi) = b[i];
        proof {
            lemma_nice_pairs_step(items, i as int);
        }
        match entry_of(&v, lo, hi) {
            Some(e) => {
                res = set_entry(res, e);
            },
            None => {},
        }
        i += 1;
    }
    assert(items.take(b.len() as int) =~= items);
    res
}

/// The profile the editor's fields describe: named `name` as typed, with
/// the items of the three fields.
pub fn profile_from_fields(name: &str, prioritize: &str, hide: &str, nice: &str) -> (res: Profile)
    ensures
        res.name@ == name@,
        strings_view(res.prioritize_processes@) == list_field(prioritize@),
        strings_view(res.hide_processes@) == list_field(hide@),
        pair_views(res.nice_adjustments@) == nice_field(nice@),
        res.well_formed(),
{
    let nice_adjustments = nice_of(nice);
    proof {
        lemma_nice_pairs_distinct(split_on(nice@, ','));
        let pv = pair_views(nice_adjustments@);
        assert forall|i: int, j: int|
            0 <= i < j < nice_adjustments@.len() implies #[trigger] nice_adjustments@[i].0@
            != #[trigger] nice_adjustments@[j].0@ by {
            assert(pv[i].0 == nice_adjustments@[i].0@ && pv[j].0 == nice_adjustments@[j].0@);
        }
    }
    Profile {
        name: owned(name),
        prioritize_processes: list_of(prioritize),
        hide_processes: list_of(hide),
        nice_adjustments,
    }
}

// ---------------------------------------------------------------------------
// The fields of a profile
// ---------------------------------------------------------------------------

/// The items of `items` with `sep` between each two.
pub open spec fn joined(items: Seq<Seq<char>>, sep: Seq<char>) -> Seq<char>
    decreases items.len(),
{
    if items.len() == 0 {
        seq![]
    } else if items.len() == 1 {
        items[0]
    } else {
        joined(items.drop_last(), sep) + sep + items.last()
    }
}

/// A nice adjustment as the editor shows it: `pattern:nice`.
pub open spec fn pair_text(p: (Seq<char>, i32)) -> Seq<char> {
    p.0 + ":"@ + signed_decimal(p.1 as int)
}

/// The editor's fields for a profile: its name, its patterns to prioritise
/// and to hide, and its nice adjustments, each list joined by `, `.
pub open spec fn fields_of(p: Profile) -> (Seq<char>, Seq<char>, Seq<char>, Seq<char>) {
    (
        p.name@,
        joined(strings_view(p.prioritize_processes@), ", "@),
        joined(strings_view(p.hide_processes@), ", "@),
        joined(pair_views(p.nice_adjustments@).map_values(|q: (Seq<char>, i32)| pair_text(q)), ", "@),
    )
}

fn join_strings(items: &Vec<String>) -> (res: String)
    ensures
        res@ == joined(strings_view(items@), ", "@),
{
    let ghost iv = strings_view(items@);
    let mut res = String::new();
    let mut i: usize = 0;
    assert(iv.take(0) =~= Seq::<Seq<char>>::empty());
    while i < items.len()
        invariant
            i <= items.len(),
            iv == strings_view(items@),
            res@ == joined(iv.take(i as int), ", "@),
        decreases items.len() - i,
    {
        assert(iv.take(i + 1).drop_last() =~= iv.take(i as int));
        assert(iv.take(i + 1).last() == items@[i as int]@);
        if i > 0 {
            push_str(&mut res, ", ");
        } else {
            assert(iv.take(1) =~= seq![items@[0]@]);
        }
        push_str(&mut res, items[i].as_str());
        i += 1;
    }
    assert(iv.take(items.len() as int) =~= iv);
    res
}

/// The editor's fields for `p` (see `fields_of`).
pub fn profile_fields(p: &Profile) -> (res: (String, String, String, String))
    ensures
        (res.0@, res.1@, res.2@, res.3@) == fields_of(*p),
{
    let mut texts: Vec<String> = Vec::new();
    let ghost pv = pair_views(p.nice_adjustments@);
    let mut i: usize = 0;
    while i < p.nice_adjustments.len()
        invariant
            i <= p.nice_adjustments.len(),
            pv == pair_views(p.nice_adjustments@),
            strings_view(texts@) == pv.take(i as int).map_values(|q: (Seq<char>, i32)| pair_text(q)),
        decreases p.nice_adjustments.len() - i,
    {
        let (pattern, nice) = &p.nice_adjustments[i];
        let mut t = owned(pattern.as_str());
        push_str(&mut t, ":");
        let d = i32_string(*nice);
        push_str(&mut t, d.as_str());
        let ghost before = texts@;
        texts.push(t);
        assert(strings_view(texts@) =~= strings_view(before).push(pair_text(pv[i as int])));
        assert(pv.take(i + 1).map_values(|q: (Seq<char>, i32)| pair_text(q)) =~= pv.take(i as int).map_values(
            |q: (Seq<char>, i32)| pair_text(q),
        ).push(pair_text(pv[i as int])));
        i += 1;
    }
    assert(pv.take(p.nice_adjustments.len() as int) =~= pv);
    (
        owned(p.name.as_str()),
        join_strings(&p.prioritize_processes),
        join_strings(&p.hide_processes),
        join_strings(&texts),
    )
}

// ---------------------------------------------------------------------------
// The profile editor
// ---------------------------------------------------------------------------

/// The profile editor: the profile's name and its three lists as text, and
/// the list being typed in (0 prioritise, 1 hide, 2 nice values).
#[derive(Debug)]
pub struct ProfileForm {
    pub name: String,
    pub prioritize: String,
    pub hide: String,
    pub nice: String,
    pub field: usize,
}

/// The model of a `ProfileForm`.
pub struct ProfileFormView {
    pub name: Seq<char>,
    pub prioritize: Seq<char>,
    pub hide: Seq<char>,
    pub nice: Seq<char>,
    pub field: usize,
}

impl View for ProfileForm {
    type V = ProfileFormView;

    open spec fn view(&self) -> ProfileFormView {
        ProfileFormView {
            name: self.name@,
            prioritize: self.prioritize@,
            hide: self.hide@,
            nice: self.nice@,
            field: self.field,
        }
    }
}

/// The editor opened on `p`.
pub fn profile_form_for(p: &Profile) -> (res: ProfileForm)
    ensures
        (res@.name, res@.prioritize, res@.hide, res@.nice) == fields_of(*p),
        res.field == 0,
{
    let (name, prioritize, hide, nice) = profile_fields(p);
    ProfileForm { name, prioritize, hide, nice, field: 0 }
}

/// The text of list `i` of the editor.
pub open spec fn list_text(f: ProfileFormView, i: usize) -> Seq<char> {
    if i == 0 {
        f.prioritize
    } else if i == 1 {
        f.hide
    } else {
        f.nice
    }
}

/// The editor with list `i` set to `t`; nothing changes past the third.
pub open spec fn with_list_text(f: ProfileFormView, i: usize, t: Seq<char>) -> ProfileFormView {
    if i == 0 {
        ProfileFormView { prioritize: t, ..f }
    } else if i == 1 {
        ProfileFormView { hide: t, ..f }
    } else if i == 2 {
        ProfileFormView { nice: t, ..f }
    } else {
        f
    }
}

/// The editor after `key`, and whether it closes (Esc, or Enter once the
/// profile was saved).
pub open spec fn profile_form_next(f: ProfileFormView, key: Key) -> (ProfileFormView, bool) {
    match key {
        Key::Esc | Key::Enter => (f, true),
        Key::Tab => (ProfileFormView { field: ((f.field + 1) % 3) as usize, ..f }, false),
        Key::BackTab => (
            ProfileFormView {
                field: if f.field == 0 {
                    2
                } else {
                    (f.field - 1) as usize
                },
                ..f
            },
            false,
        ),
        Key::Char(c) => (with_list_text(f, f.field, list_text(f, f.field).push(c)), false),
        Key::Backspace => {
            let t = list_text(f, f.field);
            (with_list_text(f, f.field, if t.len() > 0 { t.drop_last() } else { t }), false)
        },
        _ => (f, false),
    }
}

/// The profile that the editor's text describes.
pub open spec fn described_by(p: Profile, f: ProfileFormView) -> bool {
    &&& p.name@ == f.name
    &&& strings_view(p.prioritize_processes@) == list_field(f.prioritize)
    &&& strings_view(p.hide_processes@) == list_field(f.hide)
    &&& pair_views(p.nice_adjustments@) == nice_field(f.nice)
}

fn edit_list(form: ProfileForm, c: Option<char>) -> (res: ProfileForm)
    ensures
        res@ == (match c {
            Some(ch) => with_list_text(form@, form.field, list_text(form@, form.field).push(ch)),
            None => {
                let t = list_text(form@, form.field);
                with_list_text(form@, form.field, if t.len() > 0 { t.drop_last() } else { t })
            },
        }),
{
    let mut form = form;
    let i = form.field;
    if i > 2 {
        return form;
    }
    let text = if i == 0 {
        owned(form.prioritize.as_str())
    } else if i == 1 {
        owned(form.hide.as_str())
    } else {
        owned(form.nice.as_str())
    };
    let text = match c {
        Some(ch) => {
            let mut t = text;
            push_char(&mut t, ch);
            t
        },
        None => backspaced(text.as_str()),
    };
    if i == 0 {
        form.prioritize = text;
    } else if i == 1 {
        form.hide = text;
    } else {
        form.nice = text;
    }
    form
}

/// The editor after `key`, and whether it closes. Enter saves the profile
/// the text describes first, replacing any profile of the same name.
pub fn profile_editor_step(form: ProfileForm, key: Key, profiles: &mut ProfileManager) -> (res: (
    ProfileForm,
    bool,
))
    ensures
        (res.0@, res.1) == profile_form_next(form@, key),
        key == Key::Enter ==> exists|p: Profile|
            #![trigger described_by(p, form@)]
            described_by(p, form@) && p.well_formed() && final(profiles).spec_profiles() == old(
                profiles,
            ).spec_profiles().filter(other_name(form.name@)).push(p),
        key != Key::Enter ==> final(profiles).spec_profiles() == old(profiles).spec_profiles(),
        final(profiles).spec_active() == old(profiles).spec_active(),
        final(profiles).spec_config_path() == old(profiles).spec_config_path(),
{
    match key {
        Key::Esc => (form, true),
        Key::Enter => {
            let p = profile_from_fields(form.name.as_str(), form.prioritize.as_str(), form.hide.as_str(), form.nice.as_str());
            let ghost saved = p;
            profiles.add_profile(p);
            assert(described_by(saved, form@));
            (form, true)
        },
        Key::Tab => {
            let field = (form.field % 3 + 1) % 3;
            assert(field == (form.field + 1) % 3);
            (ProfileForm { field, ..form }, false)
        },
        Key::BackTab => {
            let field = if form.field == 0 {
                2
            } else {
                form.field - 1
            };
            (ProfileForm { field, ..form }, false)
        },
        Key::Char(c) => (edit_list(form, Some(c)), false),
        Key::Backspace => (edit_list(form, None), false),
        _ => (form, false),
    }
}

// ---------------------------------------------------------------------------
// Reading back what the editor shows
// ---------------------------------------------------------------------------

/// An item that a list field reads back as it is: not empty, without a
/// comma, and without white space at either end.
pub open spec fn plain_item(x: Seq<char>) -> bool {
    &&& x.len() > 0
    &&& forall|j: int| 0 <= j < x.len() ==> x[j] != ','
    &&& trim(x) == x
}

proof fn lemma_filter_keeps_all(s: Seq<Seq<char>>)
    requires
        forall|i: int| 0 <= i < s.len() ==> s[i].len() > 0,
    ensures
        s.filter(|p: Seq<char>| p.len() > 0) == s,
    decreases s.len(),
{
    reveal(Seq::filter);
    if s.len() > 0 {
        lemma_filter_keeps_all(s.drop_last());
        assert(s.drop_last().push(s.last()) =~= s);
    }
}

/// A list written with `, ` between its items, as the profile editor
/// shows it, reads back as the same list when every item is plain.
pub proof fn lemma_list_field_reads_joined(items: Seq<Seq<char>>)
    requires
        forall|i: int| 0 <= i < items.len() ==> plain_item(#[trigger] items[i]),
    ensures
        list_field(joined(items, ", "@)) == items,
    decreases items.len(),
{
    let nonempty = |p: Seq<char>| p.len() > 0;
    if items.len() == 0 {
        assert(split_on(Seq::<char>::empty(), ',') == seq![Seq::<char>::empty()]) by {
            lemma_split_on_without(Seq::<char>::empty(), ',');
        }
        let e: Seq<Seq<char>> = seq![Seq::<char>::empty()];
        assert(trim(Seq::<char>::empty()) =~= Seq::<char>::empty());
        assert(trim_each(e) =~= e);
        assert(e.drop_last() =~= Seq::<Seq<char>>::empty());
        assert(Seq::<Seq<char>>::empty().filter(nonempty) =~= Seq::<Seq<char>>::empty()) by {
            reveal(Seq::filter);
        }
        assert(e.filter(nonempty) =~= Seq::<Seq<char>>::empty()) by {
            reveal(Seq::filter);
        }
        assert(list_field(joined(items, ", "@)) =~= items);
    } else if items.len() == 1 {
        let x = items[0];
        assert(plain_item(items[0]));
        lemma_split_on_without(x, ',');
        assert(trim_each(seq![x]) =~= seq![x]);
        lemma_filter_keeps_all(seq![x]);
        assert(list_field(joined(items, ", "@)) =~= items);
    } else {
        let init = items.drop_last();
        let last = items.last();
        assert forall|i: int| 0 <= i < init.len() implies plain_item(#[trigger] init[i]) by {
            assert(init[i] == items[i]);
        }
        assert(plain_item(items[items.len() - 1]));
        lemma_list_field_reads_joined(init);
        let left = joined(init, ", "@);
        let right = seq![' '] + last;
        reveal_strlit(", ");
        assert(joined(items, ", "@) =~= left + seq![','] + right);
        lemma_split_on_joined(left, right, ',');
        assert forall|j: int| 0 <= j < right.len() implies right[j] != ',' by {
            if j > 0 {
                assert(right[j] == last[j - 1]);
            }
        }
        lemma_split_on_without(right, ',');
        lemma_trim_after_space(last);
        let parts = split_on(left, ',');
        assert(trim_each(parts + seq![right]) =~= trim_each(parts) + seq![last]);
        assert((trim_each(parts) + seq![last]).filter(nonempty) == trim_each(parts).filter(nonempty)
            + seq![last].filter(nonempty)) by {
            Seq::filter_distributes_over_add(trim_each(parts), seq![last], nonempty);
        }
        lemma_filter_keeps_all(seq![last]);
        assert(init + seq![last] =~= items);
    }
}

/// A nice value the editor reads back as it is: its pattern is plain and
/// holds no `:`.
pub open spec fn plain_pair(q: (Seq<char>, i32)) -> bool {
    &&& plain_item(q.0)
    &&& forall|j: int| 0 <= j < q.0.len() ==> q.0[j] != ':'
}

proof fn lemma_nice_entry_of_text(q: (Seq<char>, i32), spaced: bool)
    requires
        plain_pair(q),
    ensures
        nice_entry(
            if spaced {
                seq![' '] + pair_text(q)
            } else {
                pair_text(q)
            },
        ) == Some(q),
{
    reveal_strlit(":");
    let sd = signed_decimal(q.1 as int);
    lemma_signed_decimal_chars(q.1 as int);
    let pat = if spaced {
        seq![' '] + q.0
    } else {
        q.0
    };
    let t = if spaced {
        seq![' '] + pair_text(q)
    } else {
        pair_text(q)
    };
    assert(t =~= pat + seq![':'] + sd);
    lemma_split_on_joined(pat, sd, ':');
    assert forall|j: int| 0 <= j < pat.len() implies pat[j] != ':' by {
        if spaced && j > 0 {
            assert(pat[j] == q.0[j - 1]);
        }
    }
    lemma_split_on_without(pat, ':');
    assert forall|j: int| 0 <= j < sd.len() implies sd[j] != ':' by {
        assert(is_digit(sd[j]) || sd[j] == '-');
    }
    lemma_split_on_without(sd, ':');
    assert(split_on(t, ':') =~= seq![pat, sd]);
    assert(!is_ws(sd[0]) && !is_ws(sd.last())) by {
        assert(is_digit(sd[0]) || sd[0] == '-');
        assert(is_digit(sd.last()));
    }
    lemma_trim_of_trimmed(sd);
    lemma_parse_signed_decimal(q.1);
    if spaced {
        lemma_trim_after_space(q.0);
    }
}

/// How the editor shows nice value `q`, after a space when it is not the
/// first.
pub open spec fn item_text(q: (Seq<char>, i32), spaced: bool) -> Seq<char> {
    if spaced {
        seq![' '] + pair_text(q)
    } else {
        pair_text(q)
    }
}

proof fn lemma_pair_text_has_no_comma(q: (Seq<char>, i32), spaced: bool)
    requires
        plain_pair(q),
    ensures
        forall|j: int| 0 <= j < item_text(q, spaced).len() ==> #[trigger] item_text(q, spaced)[j] != ',',
{
    reveal_strlit(":");
    let sd = signed_decimal(q.1 as int);
    lemma_signed_decimal_chars(q.1 as int);
    let t = pair_text(q);
    assert(t =~= q.0 + seq![':'] + sd);
    assert forall|j: int| 0 <= j < t.len() implies t[j] != ',' by {
        if j < q.0.len() {
        } else if j == q.0.len() {
        } else {
            assert(t[j] == sd[j - q.0.len() - 1]);
            assert(is_digit(sd[j - q.0.len() - 1]) || sd[j - q.0.len() - 1] == '-');
        }
    }
    if spaced {
        let u = seq![' '] + t;
        assert forall|j: int| 0 <= j < u.len() implies u[j] != ',' by {
            if j > 0 {
                assert(u[j] == t[j - 1]);
            }
        }
    }
}

/// The nice values written as the profile editor shows them, `pattern:nice`
/// joined by `, `, read back as the same values when every pattern is plain
/// and none is named twice.
pub proof fn lemma_nice_field_reads_joined(pairs: Seq<(Seq<char>, i32)>)
    requires
        forall|i: int| 0 <= i < pairs.len() ==> plain_pair(#[trigger] pairs[i]),
        distinct_patterns(pairs),
    ensures
        nice_field(joined(pairs.map_values(|q: (Seq<char>, i32)| pair_text(q)), ", "@)) == pairs,
    decreases pairs.len(),
{
    let texts = pairs.map_values(|q: (Seq<char>, i32)| pair_text(q));
    if pairs.len() == 0 {
        let e = Seq::<char>::empty();
        assert(texts.len() == 0);
        assert(joined(texts, ", "@) == e);
        lemma_split_on_without(e, ',');
        lemma_split_on_without(e, ':');
        let items = seq![e];
        assert(items.drop_last() =~= Seq::<Seq<char>>::empty());
        assert(items.last() == e);
        assert(nice_entry(e) is None);
        assert(nice_pairs(items.drop_last()) == Seq::<(Seq<char>, i32)>::empty());
        assert(nice_pairs(items) == nice_pairs(items.drop_last()));
        assert(nice_field(joined(texts, ", "@)) =~= pairs);
    } else if pairs.len() == 1 {
        let q = pairs[0];
        assert(plain_pair(pairs[0]));
        lemma_pair_text_has_no_comma(q, false);
        assert(item_text(q, false) == pair_text(q));
        lemma_split_on_without(pair_text(q), ',');
        lemma_nice_entry_of_text(q, false);
        let items = seq![pair_text(q)];
        assert(items.drop_last() =~= Seq::<Seq<char>>::empty());
        assert(items.last() == pair_text(q));
        assert(texts.len() == 1 && texts[0] == pair_text(q));
        assert(joined(texts, ", "@) == pair_text(q));
        assert(nice_pairs(items.drop_last()) == Seq::<(Seq<char>, i32)>::empty());
        assert(pattern_index(Seq::<(Seq<char>, i32)>::empty(), q.0) is None);
        assert(nice_pairs(items) == with_entry(Seq::<(Seq<char>, i32)>::empty(), q));
        assert(nice_field(joined(texts, ", "@)) =~= pairs);
    } else {
        let init = pairs.drop_last();
        let last = pairs.last();
        assert forall|i: int| 0 <= i < init.len() implies plain_pair(#[trigger] init[i]) by {
            assert(init[i] == pairs[i]);
        }
        assert(plain_pair(pairs[pairs.len() - 1]));
        assert(distinct_patterns(init)) by {
            assert forall|i: int, j: int| 0 <= i < j < init.len() implies init[i].0 != init[j].0 by {
                assert(init[i] == pairs[i] && init[j] == pairs[j]);
            }
        }
        lemma_nice_field_reads_joined(init);
        let init_texts = init.map_values(|q: (Seq<char>, i32)| pair_text(q));
        assert(texts.drop_last() =~= init_texts);
        assert(texts.last() == pair_text(last));
        let left = joined(init_texts, ", "@);
        let right = seq![' '] + pair_text(last);
        reveal_strlit(", ");
        assert(joined(texts, ", "@) =~= left + seq![','] + right);
        lemma_split_on_joined(left, right, ',');
        lemma_pair_text_has_no_comma(last, true);
        assert(item_text(last, true) == right);
        lemma_split_on_without(right, ',');
        lemma_nice_entry_of_text(last, true);
        let items = split_on(left, ',') + seq![right];
        assert(items.drop_last() =~= split_on(left, ','));
        assert(items.last() == right);
        lemma_pattern_index(init, last.0);
        assert(pattern_index(init, last.0) is None) by {
            if let Some(k) = pattern_index(init, last.0) {
                assert(init[k] == pairs[k]);
                assert(pairs[k].0 != pairs[pairs.len() - 1].0);
            }
        }
        assert(init.push(last) =~= pairs);
    }
}

/// Opening a profile in the editor and saving it without a change gives
/// back its name and lists, when its patterns are plain (those of its nice
/// values without `:`) and no pattern has two nice values.
pub proof fn lemma_editor_keeps_an_unchanged_profile(p: Profile, q: Profile)
    requires
        forall|i: int|
            0 <= i < p.prioritize_processes@.len() ==> plain_item(#[trigger] p.prioritize_processes@[i]@),
        forall|i: int| 0 <= i < p.hide_processes@.len() ==> plain_item(#[trigger] p.hide_processes@[i]@),
        forall|i: int|
            0 <= i < p.nice_adjustments@.len() ==> plain_pair(#[trigger] pair_views(p.nice_adjustments@)[i]),
        distinct_patterns(pair_views(p.nice_adjustments@)),
        described_by(
            q,
            ProfileFormView {
                name: fields_of(p).0,
                prioritize: fields_of(p).1,
                hide: fields_of(p).2,
                nice: fields_of(p).3,
                field: 0,
            },
        ),
    ensures
        q.name@ == p.name@,
        strings_view(q.prioritize_processes@) == strings_view(p.prioritize_processes@),
        strings_view(q.hide_processes@) == strings_view(p.hide_processes@),
        pair_views(q.nice_adjustments@) == pair_views(p.nice_adjustments@),
{
    let pr = strings_view(p.prioritize_processes@);
    assert forall|i: int| 0 <= i < pr.len() implies plain_item(#[trigger] pr[i]) by {
        assert(pr[i] == p.prioritize_processes@[i]@);
    }
    lemma_list_field_reads_joined(pr);
    let hd = strings_view(p.hide_processes@);
    assert forall|i: int| 0 <= i < hd.len() implies plain_item(#[trigger] hd[i]) by {
        assert(hd[i] == p.hide_processes@[i]@);
    }
    lemma_list_field_reads_joined(hd);
    let nv = pair_views(p.nice_adjustments@);
    assert forall|i: int| 0 <= i < nv.len() implies plain_pair(#[trigger] nv[i]) by {
        assert(plain_pair(pair_views(p.nice_adjustments@)[i]));
    }
    lemma_nice_field_reads_joined(nv);
}

} // verus!
