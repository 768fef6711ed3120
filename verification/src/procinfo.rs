//! What the program reads about a process from `/proc`: its cgroup, the
//! container that cgroup belongs to, its namespace IDs and its command line.
//!
//! The caller reads the files; these functions decide on their contents.

use vstd::prelude::*;
use crate::filter::byte_len;
use crate::filter::char_width;
use crate::text::{
    chars_of, contains, contains_exec, find, find_exec, matches_at, index_of, lemma_index_of, line_bounds,
    lines, parse_u64_range, parse_unsigned, split_bounds, split_on, starts_with, string_of, trim,
    trim_bounds,
};

verus! {

// ---------------------------------------------------------------------------
// Cgroups
// ---------------------------------------------------------------------------

/// The first cgroup path among the lines of `/proc/<pid>/cgroup`
/// (`hierarchy:controllers:path`): the third `:`-separated field of a line,
/// trimmed, when it is neither empty nor `/`.
pub open spec fn cgroup_path(ls: Seq<Seq<char>>) -> Option<Seq<char>>
    decreases ls.len(),
{
    if ls.len() == 0 {
        None
    } else {
        let parts = split_on(ls[0], ':');
        if parts.len() >= 3 && trim(parts[2]).len() > 0 && trim(parts[2]) != seq!['/'] {
            Some(trim(parts[2]))
        } else {
            cgroup_path(ls.drop_first())
        }
    }
}

/// The cgroup of a process, from the content of its `/proc/<pid>/cgroup`.
pub fn get_cgroup(content: &str) -> (res: Option<String>)
    ensures
        match cgroup_path(lines(content@)) {
            Some(p) => res matches Some(r) && r@ == p,
            None => res is None,
        },
{
    let v = chars_of(content);
    let ls = line_bounds(&v);
    let ghost all = lines(v@);
    let mut k: usize = 0;
    assert(all.skip(0) =~= all);
    while k < ls.len()
        invariant
            v@ == content@,
            all == lines(v@),
            ls.len() == all.len(),
            forall|j: int|
                0 <= j < ls.len() ==> {
                    &&& (#[trigger] ls[j]).0 <= ls[j].1 <= v.len()
                    &&& v@.subrange(ls[j].0 as int, ls[j].1 as int) == all[j]
                },
            k <= ls.len(),
            cgroup_path(all) == cgroup_path(all.skip(k as int)),
        decreases ls.len() - k,
    {
        let (a, b) = ls[k];
        assert(ls[k as int].0 <= ls[k as int].1 <= v.len());
        let ghost line = v@.subrange(a as int, b as int);
        assert(all.skip(k as int)[0] == line);
        assert(all.skip(k as int).drop_first() =~= all.skip(k + 1));
        let parts = split_bounds(&v, a, b, ':');
        if parts.len() >= 3 {
            let (p, q) = parts[2];
            assert(a <= parts[2].0 <= parts[2].1 <= b);
            let (x, y) = trim_bounds(&v, p, q);
            assert(v@.subrange(p as int, q as int) == split_on(line, ':')[2]);
            if y > x && !(y - x == 1 && v[x] == '/') {
                let r = string_of(&v, x, y);
                proof {
                    let t = v@.subrange(x as int, y as int);
                    assert(t == trim(split_on(line, ':')[2]));
                    if t == seq!['/'] {
                        assert(t.len() == 1);
                        assert(t[0] == v@[x as int]);
                        assert(seq!['/'][0] == '/');
                        assert(false);
                    }
                }
                return Some(r);
            }
            assert(trim(split_on(line, ':')[2]).len() == 0 || trim(split_on(line, ':')[2])
                == seq!['/']) by {
                if y > x {
                    assert(v@.subrange(x as int, y as int) =~= seq!['/']);
                }
            }
        }
        k += 1;
    }
    None
}

// ---------------------------------------------------------------------------
// Containers
// ---------------------------------------------------------------------------

/// At most the first twelve characters of `s` (a short container ID).
pub open spec fn take12(s: Seq<char>) -> Seq<char> {
    if s.len() <= 12 {
        s
    } else {
        s.take(12)
    }
}

/// `char::is_ascii_hexdigit`.
pub open spec fn is_hex(c: char) -> bool {
    ('0' <= c <= '9') || ('a' <= c <= 'f') || ('A' <= c <= 'F')
}

pub open spec fn all_hex(s: Seq<char>) -> bool {
    forall|i: int| 0 <= i < s.len() ==> is_hex(#[trigger] s[i])
}

/// What `char::is_alphanumeric` says of `c` (Unicode `Alphabetic` or `Numeric`).
pub uninterp spec fn alphanumeric(c: char) -> bool;

/// `char::is_alphanumeric`.
#[verifier::external_body]
fn is_alphanumeric(c: char) -> (r: bool)
    ensures
        r == alphanumeric(c),
{
    c.is_alphanumeric()
}

pub open spec fn all_alphanumeric(s: Seq<char>) -> bool {
    forall|i: int| 0 <= i < s.len() ==> alphanumeric(#[trigger] s[i])
}

pub open spec fn all_alphanumeric_or_dash(s: Seq<char>) -> bool {
    forall|i: int| 0 <= i < s.len() ==> alphanumeric(#[trigger] s[i]) || s[i] == '-'
}

/// The ID between `marker` and the next `.scope` after it, shortened to twelve
/// characters, when it has at least twelve characters, all hexadecimal.
pub open spec fn scope_id(c: Seq<char>, marker: Seq<char>) -> Option<Seq<char>> {
    match find(c, marker) {
        Some(start) => {
            let after = c.skip(start + marker.len());
            match find(after, ".scope"@) {
                Some(end) => {
                    let id = after.take(end);
                    if id.len() >= 12 && all_hex(id) {
                        Some(take12(id))
                    } else {
                        None
                    }
                },
                None => None,
            }
        },
        None => None,
    }
}

/// A path component that looks like a Kubernetes container ID: 64 hexadecimal
/// characters, or 12 to 63 bytes of letters and digits.
pub open spec fn kube_part(p: Seq<char>) -> bool {
    (p.len() == 64 && all_hex(p)) || (12 <= byte_len(p) < 64 && all_alphanumeric(p))
}

/// A path component that looks like a Podman container ID.
pub open spec fn podman_part(p: Seq<char>) -> bool {
    byte_len(p) >= 12 && all_alphanumeric_or_dash(p) && !contains(p, "slice"@) && !contains(
        p,
        "scope"@,
    )
}

/// A path component that looks like the ID of some other container runtime.
pub open spec fn generic_part(p: Seq<char>) -> bool {
    &&& 12 <= byte_len(p) <= 64
    &&& all_alphanumeric_or_dash(p)
    &&& !contains(p, "slice"@)
    &&& !contains(p, "scope"@)
    &&& !contains(p, "systemd"@)
    &&& !contains(p, "user"@)
}

/// Which component test is meant.
pub enum PartKind {
    Kube,
    Podman,
    Generic,
}

pub open spec fn part_fits(kind: PartKind, p: Seq<char>) -> bool {
    match kind {
        PartKind::Kube => kube_part(p),
        PartKind::Podman => podman_part(p),
        PartKind::Generic => generic_part(p),
    }
}

/// The first of `parts` that fits `kind`, shortened to twelve characters.
pub open spec fn first_fit(parts: Seq<Seq<char>>, kind: PartKind) -> Option<Seq<char>>
    decreases parts.len(),
{
    if parts.len() == 0 {
        None
    } else if part_fits(kind, parts[0]) {
        Some(take12(parts[0]))
    } else {
        first_fit(parts.drop_first(), kind)
    }
}

/// The short ID of the container that the cgroup path `c` belongs to, tried
/// in this order: `/docker/<id>`; `.../system.slice/docker-<id>.scope`; any
/// `.../docker-<id>.scope`; a Kubernetes path (`/kubepods/`); a Podman or
/// systemd-machine path (`machine.slice`, `libpod`, `user.slice`); and last
/// any component that looks like an ID.
pub open spec fn container_id_of(c: Seq<char>) -> Option<Seq<char>> {
    let parts = split_on(c, '/');
    if starts_with(c, "/docker/"@) && c.len() > "/docker/"@.len() {
        Some(take12(c.skip("/docker/"@.len() as int)))
    } else if contains(c, "/system.slice/docker-"@) && scope_id(c, "/system.slice/docker-"@) is Some {
        scope_id(c, "/system.slice/docker-"@)
    } else if contains(c, "/docker-"@) && contains(c, ".scope"@) && scope_id(c, "/docker-"@) is Some {
        scope_id(c, "/docker-"@)
    } else if contains(c, "/kubepods/"@) && first_fit(parts, PartKind::Kube) is Some {
        first_fit(parts, PartKind::Kube)
    } else if (contains(c, "machine.slice"@) || contains(c, "libpod"@) || contains(c, "user.slice"@))
        && first_fit(parts, PartKind::Podman) is Some {
        first_fit(parts, PartKind::Podman)
    } else {
        first_fit(parts, PartKind::Generic)
    }
}

/// `v[lo..hi]` shortened to twelve characters.
fn short_id(v: &Vec<char>, lo: usize, hi: usize) -> (res: String)
    requires
        lo <= hi <= v.len(),
    ensures
        res@ == take12(v@.subrange(lo as int, hi as int)),
{
    if hi - lo <= 12 {
        string_of(v, lo, hi)
    } else {
        let r = string_of(v, lo, lo + 12);
        assert(v@.subrange(lo as int, hi as int).take(12) =~= v@.subrange(lo as int, lo + 12));
        r
    }
}

fn is_hex_char(c: char) -> (r: bool)
    ensures
        r == is_hex(c),
{
    ('0' <= c && c <= '9') || ('a' <= c && c <= 'f') || ('A' <= c && c <= 'F')
}

/// Whether every character of `v[lo..hi]` is hexadecimal (`mode == 0`), a
/// letter or digit (`mode == 1`), or a letter, digit or `-` (otherwise).
fn all_chars(v: &Vec<char>, lo: usize, hi: usize, mode: u8) -> (r: bool)
    requires
        lo <= hi <= v.len(),
    ensures
        mode == 0 ==> r == all_hex(v@.subrange(lo as int, hi as int)),
        mode == 1 ==> r == all_alphanumeric(v@.subrange(lo as int, hi as int)),
        mode >= 2 ==> r == all_alphanumeric_or_dash(v@.subrange(lo as int, hi as int)),
{
    let ghost s = v@.subrange(lo as int, hi as int);
    let mut i = lo;
    while i < hi
        invariant
            lo <= i <= hi <= v.len(),
            s == v@.subrange(lo as int, hi as int),
            mode == 0 ==> forall|j: int| 0 <= j < i - lo ==> is_hex(#[trigger] s[j]),
            mode == 1 ==> forall|j: int| 0 <= j < i - lo ==> alphanumeric(#[trigger] s[j]),
            mode >= 2 ==> forall|j: int|
                0 <= j < i - lo ==> alphanumeric(#[trigger] s[j]) || s[j] == '-',
        decreases hi - i,
    {
        let c = v[i];
        assert(s[i - lo] == c);
        let ok = if mode == 0 {
            is_hex_char(c)
        } else if mode == 1 {
            is_alphanumeric(c)
        } else {
            is_alphanumeric(c) || c == '-'
        };
        if !ok {
            return false;
        }
        i += 1;
    }
    true
}

/// The UTF-8 length of `v[lo..hi]`, or 65 for anything longer than 64 bytes.
fn utf8_len_upto_64(v: &Vec<char>, lo: usize, hi: usize) -> (r: u64)
    requires
        lo <= hi <= v.len(),
    ensures
        r <= 65,
        r <= 64 ==> r == byte_len(v@.subrange(lo as int, hi as int)),
        r == 65 ==> byte_len(v@.subrange(lo as int, hi as int)) > 64,
{
    let mut acc: u64 = 0;
    let mut i = lo;
    while i < hi
        invariant
            lo <= i <= hi <= v.len(),
            acc <= 65,
            acc <= 64 ==> acc == byte_len(v@.subrange(lo as int, i as int)),
            acc == 65 ==> byte_len(v@.subrange(lo as int, i as int)) > 64,
        decreases hi - i,
    {
        let c = v[i];
        let u = c as u32;
        let w: u64 = if u < 0x80 {
            1
        } else if u < 0x800 {
            2
        } else if u < 0x10000 {
            3
        } else {
            4
        };
        assert(w == char_width(c));
        assert(v@.subrange(lo as int, i + 1).drop_last() =~= v@.subrange(lo as int, i as int));
        assert(byte_len(v@.subrange(lo as int, i + 1)) == byte_len(v@.subrange(lo as int, i as int))
            + char_width(c));
        if acc + w > 64 {
            acc = 65;
        } else {
            acc = acc + w;
        }
        i += 1;
    }
    acc
}

fn part_fits_at(v: &Vec<char>, lo: usize, hi: usize, kind: &PartKind) -> (r: bool)
    requires
        lo <= hi <= v.len(),
    ensures
        r == part_fits(*kind, v@.subrange(lo as int, hi as int)),
{
    let p = string_of(v, lo, hi);
    let n = utf8_len_upto_64(v, lo, hi);
    match kind {
        PartKind::Kube => {
            (hi - lo == 64 && all_chars(v, lo, hi, 0)) || (12 <= n && n < 64 && all_chars(
                v,
                lo,
                hi,
                1,
            ))
        },
        PartKind::Podman => {
            n >= 12 && all_chars(v, lo, hi, 2) && !contains_exec(p.as_str(), "slice")
                && !contains_exec(p.as_str(), "scope")
        },
        PartKind::Generic => {
            12 <= n && n <= 64 && all_chars(v, lo, hi, 2) && !contains_exec(p.as_str(), "slice")
                && !contains_exec(p.as_str(), "scope") && !contains_exec(p.as_str(), "systemd")
                && !contains_exec(p.as_str(), "user")
        },
    }
}

proof fn lemma_first_fit_step(all: Seq<Seq<char>>, k: int, kind: PartKind)
    requires
        0 <= k < all.len(),
    ensures
        first_fit(all.skip(k), kind) == (if part_fits(kind, all[k]) {
            Some(take12(all[k]))
        } else {
            first_fit(all.skip(k + 1), kind)
        }),
{
    assert(all.skip(k)[0] == all[k]);
    assert(all.skip(k).drop_first() =~= all.skip(k + 1));
}

/// The first `/`-separated component of `v` that fits `kind`, shortened.
fn first_fit_in(v: &Vec<char>, kind: PartKind) -> (res: Option<String>)
    ensures
        match first_fit(split_on(v@, '/'), kind) {
            Some(id) => res matches Some(r) && r@ == id,
            None => res is None,
        },
{
    let parts = split_bounds(v, 0, v.len(), '/');
    assert(v@.subrange(0, v.len() as int) =~= v@);
    let ghost all = split_on(v@, '/');
    let mut k: usize = 0;
    assert(all.skip(0) =~= all);
    while k < parts.len()
        invariant
            all == split_on(v@, '/'),
            parts.len() == all.len(),
            forall|j: int|
                0 <= j < parts.len() ==> {
                    &&& 0 <= (#[trigger] parts[j]).0 <= parts[j].1 <= v.len()
                    &&& v@.subrange(parts[j].0 as int, parts[j].1 as int) == all[j]
                },
            k <= parts.len(),
            first_fit(all, kind) == first_fit(all.skip(k as int), kind),
        decreases parts.len() - k,
    {
        let (a, b) = parts[k];
        assert(parts[k as int].0 <= parts[k as int].1 <= v.len());
        proof {
            lemma_first_fit_step(all, k as int, kind);
        }
        if part_fits_at(v, a, b, &kind) {
            return Some(short_id(v, a, b));
        }
        k += 1;
    }
    None
}

/// Whether `v` starts with `p`; the length of `p` when it does.
fn prefix_len(v: &Vec<char>, p: &str) -> (res: Option<usize>)
    ensures
        res is Some <==> starts_with(v@, p@),
        res matches Some(k) ==> k == p@.len(),
{
    let pv = chars_of(p);
    if pv.len() <= v.len() && crate::text::range_eq(v, 0, pv.len(), &pv) {
        Some(pv.len())
    } else {
        None
    }
}

fn scope_id_in(v: &Vec<char>, marker: &str) -> (res: Option<String>)
    ensures
        match scope_id(v@, marker@) {
            Some(id) => res matches Some(r) && r@ == id,
            None => res is None,
        },
{
    let m = chars_of(marker);
    match find_exec(v, &m, 0) {
        None => None,
        Some(start) => {
            assert(matches_at(v@, m@, start as int));
            let ml = m.len();
            assert(start + ml <= v.len());
            let from = start + ml;
            let after_s = string_of(v, from, v.len());
            let after = chars_of(after_s.as_str());
            assert(after@ =~= v@.skip(from as int));
            let scope = chars_of(".scope");
            match find_exec(&after, &scope, 0) {
                None => None,
                Some(end) => {
                    assert(after@.take(end as int) =~= after@.subrange(0, end as int));
                    if end >= 12 && all_chars(&after, 0, end, 0) {
                        Some(short_id(&after, 0, end))
                    } else {
                        None
                    }
                },
            }
        },
    }
}

/// The short ID of the container that the cgroup path `cgroup` belongs to.
pub fn get_container_id(cgroup: &str) -> (res: Option<String>)
    ensures
        match container_id_of(cgroup@) {
            Some(id) => res matches Some(r) && r@ == id,
            None => res is None,
        },
{
    let v = chars_of(cgroup);
    if let Some(k) = prefix_len(&v, "/docker/") {
        if k < v.len() {
            let r = short_id(&v, k, v.len());
            assert(v@.subrange(k as int, v.len() as int) =~= cgroup@.skip(k as int));
            return Some(r);
        }
    }
    if contains_exec(cgroup, "/system.slice/docker-") {
        if let Some(r) = scope_id_in(&v, "/system.slice/docker-") {
            return Some(r);
        }
    }
    if contains_exec(cgroup, "/docker-") && contains_exec(cgroup, ".scope") {
        if let Some(r) = scope_id_in(&v, "/docker-") {
            return Some(r);
        }
    }
    if contains_exec(cgroup, "/kubepods/") {
        if let Some(r) = first_fit_in(&v, PartKind::Kube) {
            return Some(r);
        }
    }
    if contains_exec(cgroup, "machine.slice") || contains_exec(cgroup, "libpod") || contains_exec(
        cgroup,
        "user.slice",
    ) {
        if let Some(r) = first_fit_in(&v, PartKind::Podman) {
            return Some(r);
        }
    }
    first_fit_in(&v, PartKind::Generic)
}

// ---------------------------------------------------------------------------
// Namespaces
// ---------------------------------------------------------------------------

/// The inode number in the target of a `/proc/<pid>/ns/*` link such as
/// `pid:[4026531836]`: the decimal number between the first `[` and the next `]`.
pub open spec fn link_inode(t: Seq<char>) -> Option<nat> {
    match index_of(t, '[') {
        Some(b) => match index_of(t.skip(b), ']') {
            Some(e) => parse_unsigned(t.subrange(b + 1, b + e), u64::MAX as nat),
            None => None,
        },
        None => None,
    }
}

/// The position of the first `c` in `v[lo..]`, counted from the start of `v`.
fn index_from(v: &Vec<char>, lo: usize, c: char) -> (res: Option<usize>)
    requires
        lo <= v.len(),
    ensures
        match index_of(v@.skip(lo as int), c) {
            Some(k) => res == Some((lo + k) as usize),
            None => res is None,
        },
{
    let ghost s = v@.skip(lo as int);
    let mut i = lo;
    while i < v.len()
        invariant
            lo <= i <= v.len(),
            s == v@.skip(lo as int),
            forall|j: int| 0 <= j < i - lo ==> s[j] != c,
        decreases v.len() - i,
    {
        if v[i] == c {
            proof {
                lemma_index_of(s, c);
                if let Some(k) = index_of(s, c) {
                    assert(k == i - lo) by {
                        if k < i - lo {
                            assert(s[k] != c);
                        }
                        if k > i - lo {
                            assert(s[i - lo] == v@[i as int]);
                        }
                    }
                }
                assert(s[i - lo] == v@[i as int]);
            }
            return Some(i);
        }
        i += 1;
    }
    proof {
        lemma_index_of(s, c);
        if let Some(k) = index_of(s, c) {
            assert(s[k] != c);
        }
    }
    None
}

/// The inode number in a namespace link target.
pub fn inode_of_link(target: &str) -> (res: Option<u64>)
    ensures
        match link_inode(target@) {
            Some(n) => res == Some(n as u64),
            None => res is None,
        },
{
    let v = chars_of(target);
    assert(v@.skip(0) =~= v@);
    match index_from(&v, 0, '[') {
        None => None,
        Some(b) => {
            proof {
                lemma_index_of(v@, '[');
            }
            match index_from(&v, b, ']') {
                None => None,
                Some(end) => {
                    proof {
                        lemma_index_of(v@.skip(b as int), ']');
                    }
                    assert(end > b) by {
                        if end == b {
                            assert(v@.skip(b as int)[0] == v@[b as int]);
                        }
                    }
                    parse_u64_range(&v, b + 1, end)
                },
            }
        },
    }
}

/// `m` with `key` bound to `value`: an existing binding is replaced in place,
/// a new one is appended.
pub open spec fn bind(m: Seq<(Seq<char>, u64)>, key: Seq<char>, value: u64) -> Seq<
    (Seq<char>, u64),
> {
    match key_index(m, key) {
        Some(i) => m.update(i, (key, value)),
        None => m.push((key, value)),
    }
}

/// The position of the binding of `key` in `m`.
pub open spec fn key_index(m: Seq<(Seq<char>, u64)>, key: Seq<char>) -> Option<int>
    decreases m.len(),
{
    if m.len() == 0 {
        None
    } else if m.last().0 == key {
        Some(m.len() - 1)
    } else {
        key_index(m.drop_last(), key)
    }
}

/// The namespace IDs of a process, from the entries of its `/proc/<pid>/ns`
/// directory (each a file name and its link target): each type whose link
/// target holds an inode number is bound to it.
pub open spec fn namespace_map(entries: Seq<(Seq<char>, Seq<char>)>) -> Seq<(Seq<char>, u64)>
    decreases entries.len(),
{
    if entries.len() == 0 {
        seq![]
    } else {
        let m = namespace_map(entries.drop_last());
        let (name, target) = entries.last();
        match link_inode(target) {
            Some(n) => bind(m, name, n as u64),
            None => m,
        }
    }
}

pub open spec fn pair_views(v: Seq<(String, u64)>) -> Seq<(Seq<char>, u64)> {
    v.map_values(|p: (String, u64)| (p.0@, p.1))
}

pub open spec fn entry_views(v: Seq<(String, String)>) -> Seq<(Seq<char>, Seq<char>)> {
    v.map_values(|p: (String, String)| (p.0@, p.1@))
}

proof fn lemma_key_index(m: Seq<(Seq<char>, u64)>, key: Seq<char>)
    ensures
        key_index(m, key) matches Some(i) ==> 0 <= i < m.len() && m[i].0 == key,
        key_index(m, key) is None ==> forall|j: int| 0 <= j < m.len() ==> m[j].0 != key,
    decreases m.len(),
{
    if m.len() > 0 && m.last().0 != key {
        lemma_key_index(m.drop_last(), key);
        assert forall|j: int| 0 <= j < m.len() - 1 implies m[j] == m.drop_last()[j] by {}
    }
}

/// The position of the binding of `key` in `v`.
fn find_key(v: &Vec<(String, u64)>, key: &str) -> (res: Option<usize>)
    ensures
        res matches Some(i) ==> key_index(pair_views(v@), key@) == Some(i as int),
        res is None ==> key_index(pair_views(v@), key@) is None,
{
    let mut i = v.len();
    assert(pair_views(v@).take(v.len() as int) =~= pair_views(v@));
    while i > 0
        invariant
            i <= v.len(),
            key_index(pair_views(v@), key@) == key_index(pair_views(v@).take(i as int), key@),
        decreases i,
    {
        let ghost t = pair_views(v@).take(i as int);
        assert(t.last() == (v@[i - 1].0@, v@[i - 1].1));
        assert(t.drop_last() =~= pair_views(v@).take(i - 1));
        if crate::text::str_eq(v[i - 1].0.as_str(), key) {
            return Some(i - 1);
        }
        i -= 1;
    }
    None
}

/// The namespace IDs of a process, from the entries of its `/proc/<pid>/ns`
/// directory: each entry is a namespace type and the target of its link.
pub fn get_namespace_ids(entries: &[(String, String)]) -> (res: Vec<(String, u64)>)
    ensures
        pair_views(res@) == namespace_map(entry_views(entries@)),
{
    let mut res: Vec<(String, u64)> = Vec::new();
    let mut k: usize = 0;
    while k < entries.len()
        invariant
            k <= entries.len(),
            pair_views(res@) == namespace_map(entry_views(entries@).take(k as int)),
        decreases entries.len() - k,
    {
        let ghost before = res@;
        let ghost es = entry_views(entries@).take(k + 1);
        assert(es.drop_last() =~= entry_views(entries@).take(k as int));
        assert(es.last() == (entries@[k as int].0@, entries@[k as int].1@));
        let ghost prev = namespace_map(entry_views(entries@).take(k as int));
        let ghost key = entries@[k as int].0@;
        match inode_of_link(entries[k].1.as_str()) {
            Some(n) => {
                assert(namespace_map(es) == bind(prev, key, n));
                let found = find_key(&res, entries[k].0.as_str());
                proof {
                    lemma_key_index(pair_views(before), key);
                }
                match found {
                    Some(i) => {

                        let name = crate::text::owned(entries[k].0.as_str());
                        res.set(i, (name, n));
                        assert(pair_views(res@) =~= pair_views(before).update(
                            i as int,
                            (entries@[k as int].0@, n),
                        ));
                        assert(pair_views(res@) == namespace_map(es));
                    },
                    None => {
                        assert(key_index(prev, key) is None);
                        let name = crate::text::owned(entries[k].0.as_str());
                        res.push((name, n));
                        assert(pair_views(res@) =~= pair_views(before).push(
                            (entries@[k as int].0@, n),
                        ));
                        assert(pair_views(res@) == namespace_map(es));
                    },
                }
            },
            None => {
                assert(namespace_map(es) == prev);
            },
        }
        k += 1;
    }
    assert(entry_views(entries@).take(entries.len() as int) =~= entry_views(entries@));
    res
}

// ---------------------------------------------------------------------------
// Command lines
// ---------------------------------------------------------------------------

/// The number of leading non-NUL bytes of `b`.
pub open spec fn field_len(b: Seq<u8>) -> nat
    decreases b.len(),
{
    if b.len() == 0 || b[0] == 0 {
        0
    } else {
        1 + field_len(b.drop_first())
    }
}

/// The non-empty NUL-separated fields of `b`, in order (what splitting at
/// each NUL byte and dropping the empty pieces gives).
pub open spec fn nul_fields(b: Seq<u8>) -> Seq<Seq<u8>>
    decreases b.len(),
{
    if b.len() == 0 {
        seq![]
    } else if b[0] == 0 {
        nul_fields(b.drop_first())
    } else {
        let n = field_len(b);
        proof {
            lemma_field_len(b);
        }
        seq![b.take(n as int)] + nul_fields(b.skip(n as int))
    }
}

pub proof fn lemma_field_len(b: Seq<u8>)
    ensures
        field_len(b) <= b.len(),
        b.len() > 0 && b[0] != 0 ==> field_len(b) >= 1,
    decreases b.len(),
{
    if b.len() > 0 && b[0] != 0 {
        lemma_field_len(b.drop_first());
    }
}

/// What `String::from_utf8_lossy` makes of `b`.
pub uninterp spec fn utf8_lossy(b: Seq<u8>) -> Seq<char>;

/// `String::from_utf8_lossy`, as an owned string.
#[verifier::external_body]
fn decode_lossy(b: &[u8]) -> (s: String)
    ensures
        s@ == utf8_lossy(b@),
{
    String::from_utf8_lossy(b).into_owned()
}

/// The program and arguments in the content of `/proc/<pid>/cmdline`: its
/// non-empty NUL-separated fields, decoded; none when there is no field.
pub open spec fn cmdline_of(b: Seq<u8>) -> Option<(Seq<char>, Seq<Seq<char>>)> {
    let f = nul_fields(b);
    if f.len() == 0 {
        None
    } else {
        Some((utf8_lossy(f[0]), f.skip(1).map_values(|x: Seq<u8>| utf8_lossy(x))))
    }
}

/// The bounds of the non-empty NUL-separated fields of `b`.
fn nul_field_bounds(b: &[u8]) -> (res: Vec<(usize, usize)>)
    ensures
        res.len() == nul_fields(b@).len(),
        forall|k: int|
            0 <= k < res.len() ==> {
                &&& (#[trigger] res[k]).0 <= res[k].1 <= b.len()
                &&& b@.subrange(res[k].0 as int, res[k].1 as int) == nul_fields(b@)[k]
            },
{
    let n = b.len();
    let mut res: Vec<(usize, usize)> = Vec::new();
    let ghost mut acc: Seq<Seq<u8>> = seq![];
    let mut i: usize = 0;
    assert(b@.subrange(0, n as int) =~= b@);
    while i < n
        invariant
            i <= n == b.len(),
            nul_fields(b@) == acc + nul_fields(b@.subrange(i as int, n as int)),
            res.len() == acc.len(),
            forall|k: int|
                0 <= k < res.len() ==> {
                    &&& (#[trigger] res[k]).0 <= res[k].1 <= n
                    &&& b@.subrange(res[k].0 as int, res[k].1 as int) == acc[k]
                },
        decreases n - i,
    {
        if b[i] == 0 {
            assert(b@.subrange(i as int, n as int).drop_first() =~= b@.subrange(i + 1, n as int));
            i += 1;
        } else {
            let mut j = i;
            while j < n && b[j] != 0
                invariant
                    i <= j <= n == b.len(),
                    field_len(b@.subrange(i as int, n as int)) == (j - i) + field_len(
                        b@.subrange(j as int, n as int),
                    ),
                decreases n - j,
            {
                assert(b@.subrange(j as int, n as int).drop_first() =~= b@.subrange(
                    j + 1,
                    n as int,
                ));
                j += 1;
            }
            let ghost t = b@.subrange(i as int, n as int);
            assert(t.take(j - i) =~= b@.subrange(i as int, j as int));
            assert(t.skip(j - i) =~= b@.subrange(j as int, n as int));
            res.push((i, j));
            proof {
                let old_acc = acc;
                acc = acc.push(b@.subrange(i as int, j as int));
                assert(acc + nul_fields(b@.subrange(j as int, n as int)) =~= old_acc + (seq![
                    b@.subrange(i as int, j as int),
                ] + nul_fields(b@.subrange(j as int, n as int))));
            }
            i = j;
        }
    }
    assert(acc + nul_fields(b@.subrange(n as int, n as int)) =~= acc);
    res
}

/// The program and arguments of a process, from the content of its
/// `/proc/<pid>/cmdline`.
pub fn read_process_cmdline(content: &[u8]) -> (res: Option<(String, Vec<String>)>)
    ensures
        match cmdline_of(content@) {
            Some((prog, args)) => res matches Some((p, a)) && p@ == prog && a@.map_values(
                |x: String| x@,
            ) == args,
            None => res is None,
        },
{
    let f = nul_field_bounds(content);
    if f.len() == 0 {
        return None;
    }
    let ghost fs = nul_fields(content@);
    let (a0, b0) = f[0];
    assert(f[0].0 <= f[0].1 <= content.len());
    let program = decode_lossy(&content[a0..b0]);
    let mut args: Vec<String> = Vec::new();
    let mut k: usize = 1;
    while k < f.len()
        invariant
            1 <= k <= f.len(),
            fs == nul_fields(content@),
            f.len() == fs.len(),
            forall|j: int|
                0 <= j < f.len() ==> {
                    &&& (#[trigger] f[j]).0 <= f[j].1 <= content.len()
                    &&& content@.subrange(f[j].0 as int, f[j].1 as int) == fs[j]
                },
            args@.map_values(|x: String| x@) == fs.subrange(1, k as int).map_values(
                |x: Seq<u8>| utf8_lossy(x),
            ),
        decreases f.len() - k,
    {
        let (a, b) = f[k];
        assert(f[k as int].0 <= f[k as int].1 <= content.len());
        let ghost before = args@;
        let arg = decode_lossy(&content[a..b]);
        assert(arg@ == utf8_lossy(fs[k as int]));
        args.push(arg);
        assert(args@ =~= before.push(arg));
        assert(fs.subrange(1, k + 1) =~= fs.subrange(1, k as int).push(fs[k as int]));
        assert(args@.map_values(|x: String| x@) =~= before.map_values(|x: String| x@).push(arg@));
        assert(fs.subrange(1, k + 1).map_values(|x: Seq<u8>| utf8_lossy(x)) =~= fs.subrange(
            1,
            k as int,
        ).map_values(|x: Seq<u8>| utf8_lossy(x)).push(utf8_lossy(fs[k as int])));
        k += 1;
    }
    assert(fs.subrange(1, f.len() as int) =~= fs.skip(1));
    Some((program, args))
}

// ---------------------------------------------------------------------------
// What is known of a process
// ---------------------------------------------------------------------------

/// One process as the program sees it. `cpu_usage_bits` is the bit pattern of
/// its CPU share (an `f32` percentage, `f32::to_bits`); `namespace_ids` binds
/// each namespace type to its inode number, each type at most once.
#[derive(Debug)]
pub struct ProcessInfo {
    pub pid: u32,
    pub name: String,
    pub cpu_usage_bits: u32,
    pub memory_usage: u64,
    pub parent_pid: Option<u32>,
    pub status: String,
    pub user: Option<String>,
    pub nice: i32,
    pub start_time_str: String,
    pub start_timestamp: u64,
    pub cgroup: Option<String>,
    pub container_id: Option<String>,
    pub namespace_ids: Vec<(String, u64)>,
    pub host: Option<String>,
}

/// The model of a process: its fields, with strings as character sequences.
pub struct ProcessView {
    pub pid: u32,
    pub name: Seq<char>,
    pub cpu_usage_bits: u32,
    pub memory_usage: u64,
    pub parent_pid: Option<u32>,
    pub status: Seq<char>,
    pub user: Option<Seq<char>>,
    pub nice: i32,
    pub start_time_str: Seq<char>,
    pub start_timestamp: u64,
    pub cgroup: Option<Seq<char>>,
    pub container_id: Option<Seq<char>>,
    pub namespace_ids: Seq<(Seq<char>, u64)>,
    pub host: Option<Seq<char>>,
}

pub open spec fn opt_view(o: Option<String>) -> Option<Seq<char>> {
    match o {
        Some(s) => Some(s@),
        None => None,
    }
}

impl View for ProcessInfo {
    type V = ProcessView;

    open spec fn view(&self) -> ProcessView {
        ProcessView {
            pid: self.pid,
            name: self.name@,
            cpu_usage_bits: self.cpu_usage_bits,
            memory_usage: self.memory_usage,
            parent_pid: self.parent_pid,
            status: self.status@,
            user: opt_view(self.user),
            nice: self.nice,
            start_time_str: self.start_time_str@,
            start_timestamp: self.start_timestamp,
            cgroup: opt_view(self.cgroup),
            container_id: opt_view(self.container_id),
            namespace_ids: pair_views(self.namespace_ids@),
            host: opt_view(self.host),
        }
    }
}

/// The models of a list of processes.
pub open spec fn views(ps: Seq<ProcessInfo>) -> Seq<ProcessView> {
    ps.map_values(|p: ProcessInfo| p@)
}

/// The inode number bound to namespace type `t`.
pub open spec fn ns_lookup(ids: Seq<(Seq<char>, u64)>, t: Seq<char>) -> Option<u64> {
    match key_index(ids, t) {
        Some(i) => Some(ids[i].1),
        None => None,
    }
}

/// A copy of an optional string.
pub fn copy_opt(s: &Option<String>) -> (res: Option<String>)
    ensures
        res == *s,
{
    match s {
        Some(x) => Some(x.clone()),
        None => None,
    }
}

/// A copy of a list of namespace bindings.
pub fn copy_ids(ids: &Vec<(String, u64)>) -> (res: Vec<(String, u64)>)
    ensures
        res@ == ids@,
{
    let mut res: Vec<(String, u64)> = Vec::new();
    let mut i: usize = 0;
    while i < ids.len()
        invariant
            i <= ids.len(),
            res@ == ids@.take(i as int),
        decreases ids.len() - i,
    {
        let (t, n) = &ids[i];
        res.push((t.clone(), *n));
        assert(ids@.take(i + 1) =~= ids@.take(i as int).push(ids@[i as int]));
        i += 1;
    }
    assert(ids@.take(ids.len() as int) =~= ids@);
    res
}

/// The inode number bound to namespace type `t` in `ids`.
pub fn lookup_namespace(ids: &Vec<(String, u64)>, t: &str) -> (res: Option<u64>)
    ensures
        res == ns_lookup(pair_views(ids@), t@),
{
    match find_key(ids, t) {
        Some(i) => {
            proof {
                lemma_key_index(pair_views(ids@), t@);
            }
            Some(ids[i].1)
        },
        None => None,
    }
}

impl ProcessInfo {
    /// A field-by-field copy.
    pub fn duplicate(&self) -> (res: ProcessInfo)
        ensures
            res@ == self@,
    {
        ProcessInfo {
            pid: self.pid,
            name: self.name.clone(),
            cpu_usage_bits: self.cpu_usage_bits,
            memory_usage: self.memory_usage,
            parent_pid: self.parent_pid,
            status: self.status.clone(),
            user: copy_opt(&self.user),
            nice: self.nice,
            start_time_str: self.start_time_str.clone(),
            start_timestamp: self.start_timestamp,
            cgroup: copy_opt(&self.cgroup),
            container_id: copy_opt(&self.container_id),
            namespace_ids: copy_ids(&self.namespace_ids),
            host: copy_opt(&self.host),
        }
    }
}

/// The name of the state letter of `/proc/<pid>/stat`.
pub open spec fn state_name(c: char) -> Seq<char> {
    if c == 'R' {
        "Running"@
    } else if c == 'S' {
        "Sleeping"@
    } else if c == 'D' {
        "Disk Sleep"@
    } else if c == 'Z' {
        "Zombie"@
    } else if c == 'T' {
        "Stopped"@
    } else if c == 't' {
        "Tracing Stop"@
    } else if c == 'X' || c == 'x' {
        "Dead"@
    } else if c == 'K' {
        "Wakekill"@
    } else if c == 'W' {
        "Waking"@
    } else if c == 'P' {
        "Parked"@
    } else if c == 'I' {
        "Idle"@
    } else {
        "Unknown("@ + seq![c] + ")"@
    }
}

/// The status shown for a process: the name of its state letter when
/// `/proc` gave one, else `fallback` (the status the system library
/// reports); a sleeping or idle process that used the CPU (`cpu_bits`, the
/// bits of an `f32` share, above zero) shows as `Run`.
pub open spec fn status_text(state: Option<char>, fallback: Seq<char>, cpu_bits: u32) -> Seq<char> {
    let raw = match state {
        Some(c) => state_name(c),
        None => fallback,
    };
    if crate::cpu::f32_less(0, cpu_bits) && (raw == "Sleep"@ || raw == "Sleeping"@ || raw == "Idle"@) {
        "Run"@
    } else {
        raw
    }
}

fn state_name_of(c: char) -> (res: String)
    ensures
        res@ == state_name(c),
{
    if c == 'R' {
        crate::text::owned("Running")
    } else if c == 'S' {
        crate::text::owned("Sleeping")
    } else if c == 'D' {
        crate::text::owned("Disk Sleep")
    } else if c == 'Z' {
        crate::text::owned("Zombie")
    } else if c == 'T' {
        crate::text::owned("Stopped")
    } else if c == 't' {
        crate::text::owned("Tracing Stop")
    } else if c == 'X' || c == 'x' {
        crate::text::owned("Dead")
    } else if c == 'K' {
        crate::text::owned("Wakekill")
    } else if c == 'W' {
        crate::text::owned("Waking")
    } else if c == 'P' {
        crate::text::owned("Parked")
    } else if c == 'I' {
        crate::text::owned("Idle")
    } else {
        let mut m = crate::text::owned("Unknown(");
        crate::text::push_char(&mut m, c);
        crate::text::push_str(&mut m, ")");
        m
    }
}

/// The status shown for a process (see `status_text`).
pub fn process_status(state: Option<char>, fallback: &str, cpu_bits: u32) -> (res: String)
    ensures
        res@ == status_text(state, fallback@, cpu_bits),
{
    let raw = match state {
        Some(c) => state_name_of(c),
        None => crate::text::owned(fallback),
    };
    proof {
        reveal_strlit("Sleep");
        reveal_strlit("Sleeping");
        reveal_strlit("Idle");
    }
    let sleepy = crate::text::str_eq(raw.as_str(), "Sleep") || crate::text::str_eq(raw.as_str(), "Sleeping")
        || crate::text::str_eq(raw.as_str(), "Idle");
    if crate::cpu::f32_lt(0, cpu_bits) && sleepy {
        crate::text::owned("Run")
    } else {
        raw
    }
}

/// How the process list shows a status.
#[derive(Clone, Copy, Debug, PartialEq, Eq, Structural)]
pub enum StatusStyle {
    /// Running, runnable or waking: bold.
    Bold,
    /// Sleeping, idle or parked.
    Blue,
    /// In uninterruptible (disk) sleep.
    Magenta,
    /// Stopped or stopped for tracing.
    Yellow,
    /// A zombie, dead or being killed.
    Red,
    /// Anything else.
    Plain,
}

/// The style of a status, by its trimmed, lower-cased text.
pub open spec fn status_style_of(status: Seq<char>) -> StatusStyle {
    let s = crate::filter::lowercase(trim(status));
    if s == "running"@ || s == "run"@ || s == "waking"@ {
        StatusStyle::Bold
    } else if s == "sleeping"@ || s == "idle"@ || s == "parked"@ {
        StatusStyle::Blue
    } else if s == "disk sleep"@ {
        StatusStyle::Magenta
    } else if s == "stopped"@ || s == "tracing stop"@ {
        StatusStyle::Yellow
    } else if s == "zombie"@ || s == "dead"@ || s == "wakekill"@ {
        StatusStyle::Red
    } else {
        StatusStyle::Plain
    }
}

/// The style in which the process list shows `status`.
pub fn status_style(status: &str) -> (res: StatusStyle)
    ensures
        res == status_style_of(status@),
{
    let v = chars_of(status);
    assert(v@.subrange(0, v.len() as int) =~= status@);
    let (a, b) = trim_bounds(&v, 0, v.len());
    let t = string_of(&v, a, b);
    let l = crate::filter::to_lowercase(t.as_str());
    let s = l.as_str();
    let eq = |p: &str| -> (r: bool)
        ensures
            r == (s@ == p@),
        { crate::text::str_eq(s, p) };
    if eq("running") || eq("run") || eq("waking") {
        StatusStyle::Bold
    } else if eq("sleeping") || eq("idle") || eq("parked") {
        StatusStyle::Blue
    } else if eq("disk sleep") {
        StatusStyle::Magenta
    } else if eq("stopped") || eq("tracing stop") {
        StatusStyle::Yellow
    } else if eq("zombie") || eq("dead") || eq("wakekill") {
        StatusStyle::Red
    } else {
        StatusStyle::Plain
    }
}

} // verus!
