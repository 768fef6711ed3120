//! Focus-mode profiles: which processes to put first, which to hide, and
//! which nice values to enforce, chosen by process-name pattern.
//!
//! A pattern matches a process name when the name contains it or the pattern
//! is `*`. At most one profile is active; with none active nothing is
//! prioritised, hidden or adjusted.

use vstd::prelude::*;
use crate::text::{chars_of, contains, contains_exec, owned, str_eq};
use crate::paths::{config_dir, config_file, home_dir, join_path};

verus! {

/// A named set of process-name patterns.
///
/// `nice_adjustments` maps patterns to nice values; each pattern occurs at
/// most once (see `well_formed`).
#[derive(Debug)]
pub struct Profile {
    pub name: String,
    pub prioritize_processes: Vec<String>,
    pub hide_processes: Vec<String>,
    pub nice_adjustments: Vec<(String, i32)>,
}

/// A pattern matches a process name when the name contains it or it is `*`.
pub open spec fn pattern_matches(process_name: Seq<char>, pattern: Seq<char>) -> bool {
    contains(process_name, pattern) || pattern == "*"@
}

/// Some pattern of `patterns` matches the name.
pub open spec fn any_matches(process_name: Seq<char>, patterns: Seq<String>) -> bool {
    exists|i: int| 0 <= i < patterns.len() && pattern_matches(process_name, #[trigger] patterns[i]@)
}

impl Profile {
    /// Each pattern of the nice adjustments occurs once.
    pub open spec fn well_formed(&self) -> bool {
        forall|i: int, j: int|
            0 <= i < j < self.nice_adjustments@.len() ==> #[trigger] self.nice_adjustments@[i].0@
                != #[trigger] self.nice_adjustments@[j].0@
    }

    /// An empty profile.
    pub fn new(name: String) -> (res: Self)
        ensures
            res.name == name,
            res.prioritize_processes@.len() == 0,
            res.hide_processes@.len() == 0,
            res.nice_adjustments@.len() == 0,
            res.well_formed(),
    {
        Profile {
            name,
            prioritize_processes: Vec::new(),
            hide_processes: Vec::new(),
            nice_adjustments: Vec::new(),
        }
    }
}

/// The first position of a profile named `name`.
pub open spec fn profile_index(profiles: Seq<Profile>, name: Seq<char>) -> Option<int>
    decreases profiles.len(),
{
    if profiles.len() == 0 {
        None
    } else {
        match profile_index(profiles.drop_last(), name) {
            Some(i) => Some(i),
            None => if profiles.last().name@ == name {
                Some(profiles.len() - 1)
            } else {
                None
            },
        }
    }
}

/// The nice value an adjustment list gives a process: the value of the pattern
/// equal to the name if there is one, else that of the first pattern that matches.
pub open spec fn nice_for(adjustments: Seq<(String, i32)>, process_name: Seq<char>) -> Option<i32> {
    match first_exact(adjustments, process_name) {
        Some(i) => Some(adjustments[i].1),
        None => match first_matching(adjustments, process_name) {
            Some(i) => Some(adjustments[i].1),
            None => None,
        },
    }
}

pub open spec fn first_exact(adjustments: Seq<(String, i32)>, process_name: Seq<char>) -> Option<int>
    decreases adjustments.len(),
{
    if adjustments.len() == 0 {
        None
    } else {
        match first_exact(adjustments.drop_last(), process_name) {
            Some(i) => Some(i),
            None => if adjustments.last().0@ == process_name {
                Some(adjustments.len() - 1)
            } else {
                None
            },
        }
    }
}

pub open spec fn first_matching(adjustments: Seq<(String, i32)>, process_name: Seq<char>) -> Option<
    int,
>
    decreases adjustments.len(),
{
    if adjustments.len() == 0 {
        None
    } else {
        match first_matching(adjustments.drop_last(), process_name) {
            Some(i) => Some(i),
            None => if pattern_matches(process_name, adjustments.last().0@) {
                Some(adjustments.len() - 1)
            } else {
                None
            },
        }
    }
}

/// Holds of the profiles not named `name`.
pub open spec fn other_name(name: Seq<char>) -> spec_fn(Profile) -> bool {
    |p: Profile| p.name@ != name
}

/// The profiles, the active profile's name, and where they are saved.
pub struct ProfileManager {
    profiles: Vec<Profile>,
    active_profile: Option<String>,
    config_path: String,
}

/// Whether the pattern list matches the name.
fn list_matches(patterns: &Vec<String>, process_name: &str) -> (res: bool)
    ensures
        res == any_matches(process_name@, patterns@),
{
    let mut i: usize = 0;
    while i < patterns.len()
        invariant
            0 <= i <= patterns.len(),
            forall|j: int| 0 <= j < i ==> !pattern_matches(process_name@, #[trigger] patterns@[j]@),
        decreases patterns.len() - i,
    {
        let p = patterns[i].as_str();
        if contains_exec(process_name, p) || str_eq(p, "*") {
            return true;
        }
        i += 1;
    }
    false
}

impl ProfileManager {
    pub closed spec fn spec_profiles(&self) -> Seq<Profile> {
        self.profiles@
    }

    pub closed spec fn spec_active(&self) -> Option<Seq<char>> {
        match self.active_profile {
            Some(n) => Some(n@),
            None => None,
        }
    }

    pub closed spec fn spec_config_path(&self) -> Seq<char> {
        self.config_path@
    }

    /// The active profile, if one is set and a profile of that name exists.
    pub open spec fn active(&self) -> Option<Profile> {
        match self.spec_active() {
            Some(n) => match profile_index(self.spec_profiles(), n) {
                Some(i) => Some(self.spec_profiles()[i]),
                None => None,
            },
            None => None,
        }
    }

    /// Where profiles are saved for the current user: `~/.lpm/profiles.toml`,
    /// or `./profiles.toml` without a home directory.
    pub fn default_config_path() -> (res: String)
        ensures
            exists|home: Option<Seq<char>>| res@ == join_path(config_dir(home), "profiles.toml"@),
    {
        let home = home_dir();
        let ghost h = match &home {
            Some(x) => Some(x@),
            None => None::<Seq<char>>,
        };
        let res = config_file(home, "profiles.toml");
        assert(res@ == join_path(config_dir(h), "profiles.toml"@));
        res
    }

    /// A manager holding the profiles loaded from `config_path`, none active.
    pub fn new(config_path: String, profiles: Vec<Profile>) -> (res: Self)
        ensures
            res.spec_profiles() == profiles@,
            res.spec_active() is None,
            res.spec_config_path() == config_path@,
    {
        ProfileManager { profiles, active_profile: None, config_path }
    }

    pub fn get_config_path(&self) -> (res: &str)
        ensures
            res@ == self.spec_config_path(),
    {
        self.config_path.as_str()
    }

    pub fn get_profiles(&self) -> (res: &[Profile])
        ensures
            res@ == self.spec_profiles(),
    {
        self.profiles.as_slice()
    }

    fn index_of(&self, name: &str) -> (res: Option<usize>)
        ensures
            res matches Some(k) ==> profile_index(self.spec_profiles(), name@) == Some(k as int),
            res is None ==> profile_index(self.spec_profiles(), name@) is None,
            res matches Some(k) ==> k < self.spec_profiles().len(),
    {
        proof {
            lemma_profile_index_bounds(self.profiles@, name@);
        }
        let mut i: usize = 0;
        while i < self.profiles.len()
            invariant
                0 <= i <= self.profiles.len(),
                profile_index(self.profiles@.take(i as int), name@) is None,
            decreases self.profiles.len() - i,
        {
            assert(self.profiles@.take(i + 1).drop_last() =~= self.profiles@.take(i as int));
            if str_eq(self.profiles[i].name.as_str(), name) {
                proof {
                    lemma_profile_index_prefix(self.profiles@, i as int + 1, name@);
                }
                return Some(i);
            }
            i += 1;
        }
        assert(self.profiles@.take(self.profiles.len() as int) =~= self.profiles@);
        None
    }

    /// The first profile named `name`.
    pub fn get_profile(&self, name: &str) -> (res: Option<&Profile>)
        ensures
            match profile_index(self.spec_profiles(), name@) {
                Some(i) => res matches Some(r) && *r == self.spec_profiles()[i],
                None => res is None,
            },
    {
        match self.index_of(name) {
            Some(i) => {
                assert(profile_index(self.spec_profiles(), name@) == Some(i as int));
                Some(&self.profiles[i])
            },
            None => None,
        }
    }

    /// The first profile named `name`, to change in place.
    pub fn get_profile_mut(&mut self, name: &str) -> (res: Option<&mut Profile>)
        ensures
            match profile_index(old(self).spec_profiles(), name@) {
                Some(i) => res matches Some(r) && *r == old(self).spec_profiles()[i]
                    && final(self).spec_profiles() == old(self).spec_profiles().update(i, *final(r))
                    && final(self).spec_active() == old(self).spec_active()
                    && final(self).spec_config_path() == old(self).spec_config_path(),
                None => res is None && *final(self) == *old(self),
            },
    {
        match self.index_of(name) {
            Some(i) => {
                assert(profile_index(old(self).spec_profiles(), name@) == Some(i as int));
                Some(&mut self.profiles[i])
            },
            None => None,
        }
    }

    /// Adds a profile, replacing any of the same name.
    pub fn add_profile(&mut self, profile: Profile)
        ensures
            final(self).spec_profiles() == old(self).spec_profiles().filter(
                other_name(profile.name@),
            ).push(profile),
            final(self).spec_active() == old(self).spec_active(),
            final(self).spec_config_path() == old(self).spec_config_path(),
    {
        let ghost before = self.profiles@;
        let mut kept: Vec<Profile> = Vec::new();
        let mut rest: Vec<Profile> = Vec::new();
        std::mem::swap(&mut rest, &mut self.profiles);
        let ghost all = rest@;
        assert(all == before);
        let mut i: usize = 0;
        let n = rest.len();
        while i < n
            invariant
                n == all.len(),
                0 <= i <= n,
                rest@ == all.skip(i as int),
                kept@ == all.take(i as int).filter(other_name(profile.name@)),
            decreases n - i,
        {
            let p = rest.remove(0);
            proof {
                assert(all.take(i + 1).drop_last() =~= all.take(i as int));
                assert(p == all[i as int]);
                reveal(Seq::filter);
                assert(all.skip(i as int).drop_first() =~= all.skip(i + 1));
            }
            if !str_eq(p.name.as_str(), profile.name.as_str()) {
                kept.push(p);
            }
            i += 1;
        }
        assert(all.take(n as int) =~= all);
        kept.push(profile);
        self.profiles = kept;
    }

    /// Removes the profiles named `name`; true when there was one. Removing the
    /// active profile leaves none active.
    pub fn remove_profile(&mut self, name: &str) -> (res: bool)
        ensures
            final(self).spec_profiles() == old(self).spec_profiles().filter(other_name(name@)),
            res == (profile_index(old(self).spec_profiles(), name@) is Some),
            final(self).spec_active() == (if res && old(self).spec_active() == Some(name@) {
                None
            } else {
                old(self).spec_active()
            }),
            final(self).spec_config_path() == old(self).spec_config_path(),
    {
        let found = self.index_of(name);
        let mut kept: Vec<Profile> = Vec::new();
        let mut rest: Vec<Profile> = Vec::new();
        std::mem::swap(&mut rest, &mut self.profiles);
        let ghost all = rest@;
        let mut i: usize = 0;
        let n = rest.len();
        while i < n
            invariant
                n == all.len(),
                0 <= i <= n,
                rest@ == all.skip(i as int),
                kept@ == all.take(i as int).filter(other_name(name@)),
            decreases n - i,
        {
            let p = rest.remove(0);
            proof {
                assert(all.take(i + 1).drop_last() =~= all.take(i as int));
                assert(p == all[i as int]);
                reveal(Seq::filter);
                assert(all.skip(i as int).drop_first() =~= all.skip(i + 1));
            }
            if !str_eq(p.name.as_str(), name) {
                kept.push(p);
            }
            i += 1;
        }
        assert(all.take(n as int) =~= all);
        self.profiles = kept;
        let removed = found.is_some();
        if removed {
            let is_active = match &self.active_profile {
                Some(a) => str_eq(a.as_str(), name),
                None => false,
            };
            if is_active {
                self.active_profile = None;
            }
        }
        removed
    }

    pub fn set_active_profile(&mut self, name: Option<String>)
        ensures
            final(self).spec_active() == (match name {
                Some(n) => Some(n@),
                None => None::<Seq<char>>,
            }),
            final(self).spec_profiles() == old(self).spec_profiles(),
            final(self).spec_config_path() == old(self).spec_config_path(),
    {
        self.active_profile = name;
    }

    pub fn get_active_profile(&self) -> (res: Option<&str>)
        ensures
            match self.spec_active() {
                Some(n) => res matches Some(r) && r@ == n,
                None => res is None,
            },
    {
        match &self.active_profile {
            Some(n) => Some(n.as_str()),
            None => None,
        }
    }

    fn active_index(&self) -> (res: Option<usize>)
        ensures
            match self.active() {
                Some(p) => res matches Some(i) && i < self.spec_profiles().len()
                    && self.spec_profiles()[i as int] == p,
                None => res is None,
            },
    {
        match &self.active_profile {
            Some(n) => {
                let r = self.index_of(n.as_str());
                match r {
                    Some(i) => {
                        assert(profile_index(self.spec_profiles(), n@) == Some(i as int));
                    },
                    None => {},
                }
                r
            },
            None => None,
        }
    }

    /// Whether the active profile puts this process first.
    pub fn is_process_prioritized(&self, process_name: &str) -> (res: bool)
        ensures
            res == (match self.active() {
                Some(p) => any_matches(process_name@, p.prioritize_processes@),
                None => false,
            }),
    {
        match self.active_index() {
            Some(i) => list_matches(&self.profiles[i].prioritize_processes, process_name),
            None => false,
        }
    }

    /// Whether the active profile hides this process.
    pub fn should_hide_process(&self, process_name: &str) -> (res: bool)
        ensures
            res == (match self.active() {
                Some(p) => any_matches(process_name@, p.hide_processes@),
                None => false,
            }),
    {
        match self.active_index() {
            Some(i) => list_matches(&self.profiles[i].hide_processes, process_name),
            None => false,
        }
    }

    /// The nice value the active profile sets for this process, if any.
    pub fn get_nice_adjustment(&self, process_name: &str) -> (res: Option<i32>)
        ensures
            res == (match self.active() {
                Some(p) => nice_for(p.nice_adjustments@, process_name@),
                None => None,
            }),
    {
        match self.active_index() {
            Some(i) => nice_lookup(&self.profiles[i].nice_adjustments, process_name),
            None => None,
        }
    }
}

fn nice_lookup(adjustments: &Vec<(String, i32)>, process_name: &str) -> (res: Option<i32>)
    ensures
        res == nice_for(adjustments@, process_name@),
{
    let mut i: usize = 0;
    while i < adjustments.len()
        invariant
            0 <= i <= adjustments.len(),
            first_exact(adjustments@.take(i as int), process_name@) is None,
        decreases adjustments.len() - i,
    {
        assert(adjustments@.take(i + 1).drop_last() =~= adjustments@.take(i as int));
        if str_eq(adjustments[i].0.as_str(), process_name) {
            proof {
                lemma_first_exact_prefix(adjustments@, i + 1, process_name@);
            }
            return Some(adjustments[i].1);
        }
        i += 1;
    }
    assert(adjustments@.take(adjustments.len() as int) =~= adjustments@);
    let mut j: usize = 0;
    while j < adjustments.len()
        invariant
            0 <= j <= adjustments.len(),
            first_exact(adjustments@, process_name@) is None,
            first_matching(adjustments@.take(j as int), process_name@) is None,
        decreases adjustments.len() - j,
    {
        assert(adjustments@.take(j + 1).drop_last() =~= adjustments@.take(j as int));
        let p = adjustments[j].0.as_str();
        if contains_exec(process_name, p) || str_eq(p, "*") {
            proof {
                lemma_first_matching_prefix(adjustments@, j + 1, process_name@);
            }
            return Some(adjustments[j].1);
        }
        j += 1;
    }
    assert(adjustments@.take(adjustments.len() as int) =~= adjustments@);
    None
}

proof fn lemma_profile_index_bounds(profiles: Seq<Profile>, name: Seq<char>)
    ensures
        profile_index(profiles, name) matches Some(i) ==> 0 <= i < profiles.len() && profiles[i].name@
            == name,
    decreases profiles.len(),
{
    if profiles.len() > 0 {
        lemma_profile_index_bounds(profiles.drop_last(), name);
    }
}

proof fn lemma_profile_index_prefix(profiles: Seq<Profile>, k: int, name: Seq<char>)
    requires
        0 <= k <= profiles.len(),
        profile_index(profiles.take(k), name) is Some,
    ensures
        profile_index(profiles, name) == profile_index(profiles.take(k), name),
    decreases profiles.len() - k,
{
    if k < profiles.len() {
        assert(profiles.take(k + 1).drop_last() =~= profiles.take(k));
        lemma_profile_index_prefix(profiles, k + 1, name);
    } else {
        assert(profiles.take(k) =~= profiles);
    }
}

proof fn lemma_first_exact_prefix(a: Seq<(String, i32)>, k: int, name: Seq<char>)
    requires
        0 <= k <= a.len(),
        first_exact(a.take(k), name) is Some,
    ensures
        first_exact(a, name) == first_exact(a.take(k), name),
    decreases a.len() - k,
{
    if k < a.len() {
        assert(a.take(k + 1).drop_last() =~= a.take(k));
        lemma_first_exact_prefix(a, k + 1, name);
    } else {
        assert(a.take(k) =~= a);
    }
}

proof fn lemma_first_matching_prefix(a: Seq<(String, i32)>, k: int, name: Seq<char>)
    requires
        0 <= k <= a.len(),
        first_matching(a.take(k), name) is Some,
    ensures
        first_matching(a, name) == first_matching(a.take(k), name),
    decreases a.len() - k,
{
    if k < a.len() {
        assert(a.take(k + 1).drop_last() =~= a.take(k));
        lemma_first_matching_prefix(a, k + 1, name);
    } else {
        assert(a.take(k) =~= a);
    }
}


proof fn lemma_profile_index_none(profiles: Seq<Profile>, name: Seq<char>)
    ensures
        profile_index(profiles, name) is None <==> forall|i: int|
            0 <= i < profiles.len() ==> #[trigger] profiles[i].name@ != name,
    decreases profiles.len(),
{
    if profiles.len() > 0 {
        lemma_profile_index_none(profiles.drop_last(), name);
        lemma_profile_index_bounds(profiles, name);
        if profile_index(profiles, name) is None {
            assert forall|i: int| 0 <= i < profiles.len() implies #[trigger] profiles[i].name@
                != name by {
                if i < profiles.len() - 1 {
                    assert(profiles[i] == profiles.drop_last()[i]);
                }
            }
        }
    }
}

/// Law: after a profile is added, looking its name up gives that profile.
pub proof fn lemma_add_then_get(profiles: Seq<Profile>, p: Profile)
    ensures
        ({
            let after = profiles.filter(other_name(p.name@)).push(p);
            profile_index(after, p.name@) == Some(after.len() - 1) && after[after.len() - 1] == p
        }),
{
    let kept = profiles.filter(other_name(p.name@));
    assert forall|i: int| 0 <= i < kept.len() implies #[trigger] kept[i].name@ != p.name@ by {
        profiles.lemma_filter_pred(other_name(p.name@), i);
    }
    lemma_profile_index_none(kept, p.name@);
    assert(kept.push(p).drop_last() =~= kept);
}

/// Law: after the profiles of a name are removed, looking the name up finds nothing.
pub proof fn lemma_remove_then_get(profiles: Seq<Profile>, name: Seq<char>)
    ensures
        profile_index(profiles.filter(other_name(name)), name) is None,
{
    let kept = profiles.filter(other_name(name));
    assert forall|i: int| 0 <= i < kept.len() implies #[trigger] kept[i].name@ != name by {
        profiles.lemma_filter_pred(other_name(name), i);
    }
    lemma_profile_index_none(kept, name);
}

/// Law: the pattern `*` matches every process name.
pub proof fn lemma_wildcard_matches_all(process_name: Seq<char>)
    ensures
        pattern_matches(process_name, "*"@),
{
}


/// No two profiles share a name.
pub open spec fn names_distinct(profiles: Seq<Profile>) -> bool {
    forall|i: int, j: int|
        0 <= i < j < profiles.len() ==> #[trigger] profiles[i].name@ != #[trigger] profiles[j].name@
}

/// Keeping the profiles not named `name` keeps names distinct, and each kept
/// profile is one of the originals.
proof fn lemma_filter_keeps_names_distinct(profiles: Seq<Profile>, name: Seq<char>)
    requires
        names_distinct(profiles),
    ensures
        names_distinct(profiles.filter(other_name(name))),
        forall|k: int|
            0 <= k < profiles.filter(other_name(name)).len() ==> exists|j: int|
                0 <= j < profiles.len() && profiles[j] == #[trigger] profiles.filter(other_name(name))[k],
    decreases profiles.len(),
{
    reveal(Seq::filter);
    if profiles.len() > 0 {
        let init = profiles.drop_last();
        let last = profiles.last();
        assert forall|i: int, j: int| 0 <= i < j < init.len() implies #[trigger] init[i].name@
            != #[trigger] init[j].name@ by {
            assert(init[i] == profiles[i] && init[j] == profiles[j]);
        }
        lemma_filter_keeps_names_distinct(init, name);
        let sub = init.filter(other_name(name));
        let all = profiles.filter(other_name(name));
        assert forall|k: int| 0 <= k < sub.len() implies #[trigger] sub[k].name@ != last.name@ by {
            let j = choose|j: int| 0 <= j < init.len() && init[j] == sub[k];
            assert(profiles[j] == sub[k]);
            assert(profiles[profiles.len() - 1] == last);
        }
        assert forall|k: int| 0 <= k < all.len() implies exists|j: int|
            0 <= j < profiles.len() && profiles[j] == #[trigger] all[k] by {
            if k < sub.len() {
                assert(all[k] == sub[k]);
                let j = choose|j: int| 0 <= j < init.len() && init[j] == sub[k];
                assert(profiles[j] == all[k]);
            } else {
                assert(profiles[profiles.len() - 1] == all[k]);
            }
        }
        assert forall|i: int, j: int| 0 <= i < j < all.len() implies #[trigger] all[i].name@
            != #[trigger] all[j].name@ by {
            if j < sub.len() {
                assert(all[i] == sub[i] && all[j] == sub[j]);
            } else {
                assert(all[i] == sub[i]);
                assert(all[j] == last);
            }
        }
    }
}

/// Law: profile names stay distinct. Adding a profile (which replaces those
/// of its name) and removing the profiles of a name keep distinct names
/// distinct; choosing the active profile leaves the profiles as they are.
pub proof fn lemma_profile_names_stay_distinct(profiles: Seq<Profile>, added: Profile, removed: Seq<char>)
    requires
        names_distinct(profiles),
    ensures
        names_distinct(profiles.filter(other_name(added.name@)).push(added)),
        names_distinct(profiles.filter(other_name(removed))),
{
    lemma_filter_keeps_names_distinct(profiles, removed);
    lemma_filter_keeps_names_distinct(profiles, added.name@);
    let kept = profiles.filter(other_name(added.name@));
    let all = kept.push(added);
    assert forall|k: int| 0 <= k < kept.len() implies #[trigger] kept[k].name@ != added.name@ by {
        profiles.lemma_filter_pred(other_name(added.name@), k);
    }
    assert forall|i: int, j: int| 0 <= i < j < all.len() implies #[trigger] all[i].name@
        != #[trigger] all[j].name@ by {
        assert(all[i] == kept[i]);
        if j < kept.len() {
            assert(all[j] == kept[j]);
        }
    }
}

} // verus!
