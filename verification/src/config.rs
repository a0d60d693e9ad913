//! The profile store: named profiles with an optional default, viewed as a
//! map from profile name to profile.
//!
//! Entries are kept sorted by name, so names are unique and every listing
//! comes out in alphabetical order. Loading the store from disk and saving
//! it back is left to the surrounding binary.
use vstd::prelude::*;
use crate::profile::{is_blank, Profile, ProfileError};
use crate::strutil::{lemma_lex_lt_irrefl, lemma_lex_lt_total, lemma_lex_lt_trans, lex_lt, str_eq,
    str_lt};

verus! {

pub struct Config {
    pub default_profile: Option<String>,
    pub profiles: Vec<(String, Profile)>,
}

impl View for Config {
    type V = Map<Seq<char>, Profile>;

    /// The store as a map from profile name to profile.
    open spec fn view(&self) -> Map<Seq<char>, Profile> {
        Map::new(|k: Seq<char>| self.spec_has(k), |k: Seq<char>| self.spec_get(k))
    }
}

impl Config {
    /// The name stored at entry `i`.
    pub open spec fn key_at(self, i: int) -> Seq<char> {
        self.profiles@[i].0@
    }

    /// Whether some entry carries this name.
    pub open spec fn spec_has(self, name: Seq<char>) -> bool {
        exists|i: int| 0 <= i < self.profiles@.len() && self.key_at(i) == name
    }

    /// The index of the entry carrying this name.
    pub open spec fn spec_idx(self, name: Seq<char>) -> int {
        choose|i: int| 0 <= i < self.profiles@.len() && self.key_at(i) == name
    }

    /// The profile stored under this name.
    pub open spec fn spec_get(self, name: Seq<char>) -> Profile {
        self.profiles@[self.spec_idx(name)].1
    }

    /// Entries are strictly sorted by name, so names are unique.
    pub open spec fn sorted(self) -> bool {
        forall|i: int, j: int|
            0 <= i < j < self.profiles@.len() ==> lex_lt(self.key_at(i), self.key_at(j))
    }

    /// Well-formed store: sorted entries, and a default that names an
    /// existing profile.
    pub open spec fn wf(self) -> bool {
        &&& self.sorted()
        &&& (self.default_profile matches Some(d) ==> self.spec_has(d@))
    }

    /// Two entries carrying the same name are the same entry.
    pub proof fn lemma_key_unique(self, i: int, j: int)
        requires
            self.sorted(),
            0 <= i < self.profiles@.len(),
            0 <= j < self.profiles@.len(),
            self.key_at(i) == self.key_at(j),
        ensures
            i == j,
    {
        if i < j || j < i {
            lemma_lex_lt_irrefl(self.key_at(i));
        }
    }

    /// The entry at `i` is the one its own name resolves to.
    pub proof fn lemma_get_at(self, i: int)
        requires
            self.sorted(),
            0 <= i < self.profiles@.len(),
        ensures
            self.spec_has(self.key_at(i)),
            self.spec_idx(self.key_at(i)) == i,
            self.spec_get(self.key_at(i)) == self.profiles@[i].1,
    {
        assert(self.spec_has(self.key_at(i)));
        let j = self.spec_idx(self.key_at(i));
        self.lemma_key_unique(i, j);
    }

    /// Index of the entry carrying `name`, if any.
    fn find_index(&self, name: &str) -> (r: Option<usize>)
        ensures
            match r {
                Some(i) => i < self.profiles@.len() && self.key_at(i as int) == name@,
                None => !self.spec_has(name@),
            },
    {
        let n = self.profiles.len();
        let mut i: usize = 0;
        while i < n
            invariant
                i <= n,
                n == self.profiles@.len(),
                forall|j: int| 0 <= j < i ==> self.key_at(j) != name@,
            decreases n - i,
        {
            if str_eq(self.profiles[i].0.as_str(), name) {
                return Some(i);
            }
            i += 1;
        }
        None
    }

    /// Add a profile under `name`, validating it first; an existing entry
    /// with that name is replaced.
    pub fn add_profile(&mut self, name: String, profile: Profile) -> (r: Result<(), ProfileError>)
        requires
            old(self).wf(),
        ensures
            final(self).wf(),
            r is Ok <==> (!is_blank(profile.name@) && !is_blank(profile.email@) && !is_blank(
                profile.ssh_key@,
            )),
            r is Ok ==> final(self)@ == old(self)@.insert(name@, profile),
            r is Ok ==> final(self).default_profile == old(self).default_profile,
            is_blank(profile.name@) ==> r matches Err(ProfileError::EmptyName),
            !is_blank(profile.name@) && is_blank(profile.email@) ==> r matches Err(
                ProfileError::EmptyEmail,
            ),
            !is_blank(profile.name@) && !is_blank(profile.email@) && is_blank(profile.ssh_key@)
                ==> r matches Err(ProfileError::EmptySshKey),
            r matches Err(_) ==> *final(self) == *old(self),
    {
        match profile.validate() {
            Err(e) => {
                return Err(e);
            },
            Ok(()) => {},
        }
        let ghost pre = *self;
        let n = self.profiles.len();
        let mut i: usize = 0;
        loop
            invariant
                *self == pre,
                pre.wf(),
                i <= n,
                n == self.profiles@.len(),
                forall|j: int| 0 <= j < i ==> lex_lt(self.key_at(j), name@),
            ensures
                *self == pre,
                i <= n,
                forall|j: int| 0 <= j < i ==> lex_lt(self.key_at(j), name@),
                i == n || !lex_lt(self.key_at(i as int), name@),
            decreases n - i,
        {
            if i == n {
                break;
            }
            if !str_lt(self.profiles[i].0.as_str(), name.as_str()) {
                break;
            }
            i += 1;
        }
        let replace = if i < n {
            str_eq(self.profiles[i].0.as_str(), name.as_str())
        } else {
            false
        };
        let ghost namev = name@;
        if replace {
            let _ = self.profiles.remove(i);
            self.profiles.insert(i, (name, profile));
            proof {
                assert forall|a: int, b: int|
                    0 <= a < b < self.profiles@.len() implies lex_lt(
                    self.key_at(a),
                    self.key_at(b),
                ) by {
                    assert(self.key_at(a) == pre.key_at(a));
                    assert(self.key_at(b) == pre.key_at(b));
                }
                self.lemma_view_insert_at(pre, i as int, namev, profile);
                assert(self.wf()) by {
                    match self.default_profile {
                        Some(d) => {
                            let k = pre.spec_idx(d@);
                            assert(self.key_at(k) == d@);
                        },
                        None => {},
                    }
                }
            }
            return Ok(());
        }
        proof {
            if i < n && !lex_lt(namev, self.key_at(i as int)) {
                lemma_lex_lt_total(self.key_at(i as int), namev);
                assert(false);
            }
        }
        self.profiles.insert(i, (name, profile));
        proof {
            assert forall|a: int, b: int|
                0 <= a < b < self.profiles@.len() implies lex_lt(
                self.key_at(a),
                self.key_at(b),
            ) by {
                let len = pre.profiles@.len();
                let ii = i as int;
                if b < ii {
                    assert(self.key_at(a) == pre.key_at(a));
                    assert(self.key_at(b) == pre.key_at(b));
                } else if a < ii && b == ii {
                    assert(self.key_at(a) == pre.key_at(a));
                } else if a < ii && b > ii {
                    assert(self.key_at(a) == pre.key_at(a));
                    assert(self.key_at(b) == pre.key_at(b - 1));
                    if b - 1 > ii {
                        lemma_lex_lt_trans(namev, pre.key_at(ii), pre.key_at(b - 1));
                    }
                    lemma_lex_lt_trans(pre.key_at(a), namev, pre.key_at(b - 1));
                } else if a == ii && b > ii {
                    assert(self.key_at(b) == pre.key_at(b - 1));
                    if b - 1 > ii {
                        lemma_lex_lt_trans(namev, pre.key_at(ii), pre.key_at(b - 1));
                    }
                } else {
                    assert(self.key_at(a) == pre.key_at(a - 1));
                    assert(self.key_at(b) == pre.key_at(b - 1));
                }
            }
            self.lemma_view_fresh_insert(pre, i as int, namev, profile);
            assert(self.wf()) by {
                match self.default_profile {
                    Some(d) => {
                        let k = pre.spec_idx(d@);
                        if k < i as int {
                            assert(self.key_at(k) == d@);
                        } else {
                            assert(self.key_at(k + 1) == d@);
                        }
                    },
                    None => {},
                }
            }
        }
        Ok(())
    }

    /// After replacing the entry at `i` (whose name already was `namev`),
    /// the view is the old view with `namev` remapped.
    proof fn lemma_view_insert_at(self, pre: Config, i: int, namev: Seq<char>, profile: Profile)
        requires
            pre.sorted(),
            self.sorted(),
            0 <= i < pre.profiles@.len(),
            pre.key_at(i) == namev,
            self.profiles@ =~= pre.profiles@.update(i, self.profiles@[i]),
            self.profiles@[i].0@ == namev,
            self.profiles@[i].1 == profile,
        ensures
            self@ == pre@.insert(namev, profile),
    {
        assert forall|k: Seq<char>| #[trigger] self@.contains_key(k) implies pre@.insert(
            namev,
            profile,
        ).contains_key(k) by {
            let j = self.spec_idx(k);
            assert(pre.key_at(j) == self.key_at(j) || j == i);
        }
        assert forall|k: Seq<char>| #[trigger]
            pre@.insert(namev, profile).contains_key(k) implies self@.contains_key(k) by {
            if k == namev {
                assert(self.key_at(i) == k);
            } else {
                let j = pre.spec_idx(k);
                assert(j != i);
                assert(self.key_at(j) == k);
            }
        }
        assert forall|k: Seq<char>| self@.contains_key(k) implies self@[k] == pre@.insert(
            namev,
            profile,
        )[k] by {
            let j = self.spec_idx(k);
            self.lemma_get_at(j);
            if k == namev {
                assert(self.key_at(i) == namev);
                self.lemma_key_unique(j, i);
            } else {
                assert(j != i);
                assert(pre.key_at(j) == k);
                pre.lemma_get_at(j);
            }
        }
        assert(self@ =~= pre@.insert(namev, profile));
    }

    /// After inserting a fresh entry at `i`, the view is the old view with
    /// `namev` added.
    proof fn lemma_view_fresh_insert(self, pre: Config, i: int, namev: Seq<char>, profile: Profile)
        requires
            pre.sorted(),
            self.sorted(),
            0 <= i <= pre.profiles@.len(),
            self.profiles@ =~= pre.profiles@.insert(i, self.profiles@[i]),
            self.profiles@[i].0@ == namev,
            self.profiles@[i].1 == profile,
        ensures
            self@ == pre@.insert(namev, profile),
    {
        assert forall|k: Seq<char>| #[trigger] self@.contains_key(k) implies pre@.insert(
            namev,
            profile,
        ).contains_key(k) by {
            let j = self.spec_idx(k);
            if j != i {
                if j < i {
                    assert(pre.key_at(j) == k);
                } else {
                    assert(pre.key_at(j - 1) == k);
                }
            }
        }
        assert forall|k: Seq<char>| #[trigger]
            pre@.insert(namev, profile).contains_key(k) implies self@.contains_key(k) by {
            if k == namev {
                assert(self.key_at(i) == k);
            } else {
                let j = pre.spec_idx(k);
                if j < i {
                    assert(self.key_at(j) == k);
                } else {
                    assert(self.key_at(j + 1) == k);
                }
            }
        }
        assert forall|k: Seq<char>| self@.contains_key(k) implies self@[k] == pre@.insert(
            namev,
            profile,
        )[k] by {
            let j = self.spec_idx(k);
            self.lemma_get_at(j);
            if k == namev {
                assert(self.key_at(i) == namev);
                self.lemma_key_unique(j, i);
            } else {
                assert(j != i);
                if j < i {
                    assert(pre.key_at(j) == k);
                    pre.lemma_get_at(j);
                } else {
                    assert(pre.key_at(j - 1) == k);
                    pre.lemma_get_at(j - 1);
                }
            }
        }
        assert(self@ =~= pre@.insert(namev, profile));
    }

    /// Remove the profile under `name`; clears the default when it named
    /// the removed profile.
    pub fn remove_profile(&mut self, name: &str) -> (r: Option<Profile>)
        requires
            old(self).wf(),
        ensures
            final(self).wf(),
            final(self)@ == old(self)@.remove(name@),
            (old(self).default_profile matches Some(d) && d@ == name@)
                ==> final(self).default_profile is None,
            !(old(self).default_profile matches Some(d) && d@ == name@)
                ==> final(self).default_profile == old(self).default_profile,
            match r {
                Some(p) => old(self).spec_has(name@) && p == old(self)@[name@],
                None => !old(self).spec_has(name@),
            },
    {
        let clear = match &self.default_profile {
            Some(d) => str_eq(d.as_str(), name),
            None => false,
        };
        if clear {
            self.default_profile = None;
        }
        let ghost pre = *old(self);
        proof {
            assert(self.profiles == pre.profiles);
        }
        match self.find_index(name) {
            Some(i) => {
                proof {
                    assert(pre.key_at(i as int) == name@);
                    pre.lemma_get_at(i as int);
                }
                let entry = self.profiles.remove(i);
                proof {
                    assert forall|a: int, b: int|
                        0 <= a < b < self.profiles@.len() implies lex_lt(
                        self.key_at(a),
                        self.key_at(b),
                    ) by {
                        let ii = i as int;
                        if b < ii {
                            assert(self.key_at(a) == pre.key_at(a));
                            assert(self.key_at(b) == pre.key_at(b));
                        } else if a < ii {
                            assert(self.key_at(a) == pre.key_at(a));
                            assert(self.key_at(b) == pre.key_at(b + 1));
                        } else {
                            assert(self.key_at(a) == pre.key_at(a + 1));
                            assert(self.key_at(b) == pre.key_at(b + 1));
                        }
                    }
                    self.lemma_view_remove(pre, i as int, name@);
                    assert(self.wf()) by {
                        match self.default_profile {
                            Some(d) => {
                                let k = pre.spec_idx(d@);
                                assert(pre.key_at(k) == d@);
                                assert(k != i as int);
                                if k < i as int {
                                    assert(self.key_at(k) == d@);
                                } else {
                                    assert(self.key_at(k - 1) == d@);
                                }
                            },
                            None => {},
                        }
                    }
                }
                Some(entry.1)
            },
            None => {
                proof {
                    assert(!pre.spec_has(name@)) by {
                        if pre.spec_has(name@) {
                            let j = pre.spec_idx(name@);
                            assert(self.key_at(j) == name@);
                            assert(self.spec_has(name@));
                        }
                    }
                    Self::lemma_view_same_profiles(*self, pre);
                    assert(pre@.remove(name@) =~= pre@);
                }
                None
            },
        }
    }

    /// Two stores over the same sorted entries have the same view.
    proof fn lemma_view_same_profiles(a: Config, b: Config)
        requires
            a.sorted(),
            a.profiles == b.profiles,
        ensures
            a@ == b@,
    {
        assert forall|k: Seq<char>| #[trigger] a@.contains_key(k) implies b@.contains_key(k) by {
            let j = a.spec_idx(k);
            assert(b.key_at(j) == k);
        }
        assert forall|k: Seq<char>| #[trigger] b@.contains_key(k) implies a@.contains_key(k) by {
            let j = b.spec_idx(k);
            assert(a.key_at(j) == k);
        }
        assert forall|k: Seq<char>| a@.contains_key(k) implies a@[k] == b@[k] by {
            let j = a.spec_idx(k);
            a.lemma_get_at(j);
            let j2 = b.spec_idx(k);
            assert(a.key_at(j2) == k);
            a.lemma_key_unique(j, j2);
        }
        assert(a@ =~= b@);
    }

    /// After removing the entry at `i` (named `namev`), the view is the old
    /// view without `namev`.
    proof fn lemma_view_remove(self, pre: Config, i: int, namev: Seq<char>)
        requires
            pre.sorted(),
            self.sorted(),
            0 <= i < pre.profiles@.len(),
            pre.key_at(i) == namev,
            self.profiles@ =~= pre.profiles@.remove(i),
        ensures
            self@ == pre@.remove(namev),
    {
        assert forall|k: Seq<char>| #[trigger] self@.contains_key(k) implies pre@.remove(
            namev,
        ).contains_key(k) by {
            let j = self.spec_idx(k);
            if j < i {
                assert(pre.key_at(j) == k);
                if k == namev {
                    pre.lemma_key_unique(j, i);
                }
            } else {
                assert(pre.key_at(j + 1) == k);
                if k == namev {
                    pre.lemma_key_unique(j + 1, i);
                }
            }
        }
        assert forall|k: Seq<char>| #[trigger]
            pre@.remove(namev).contains_key(k) implies self@.contains_key(k) by {
            let j = pre.spec_idx(k);
            assert(pre.key_at(j) == k);
            assert(j != i) by {
                if j == i {
                    assert(k == namev);
                }
            }
            if j < i {
                assert(self.key_at(j) == k);
            } else {
                assert(self.key_at(j - 1) == k);
            }
        }
        assert forall|k: Seq<char>| self@.contains_key(k) implies self@[k] == pre@.remove(
            namev,
        )[k] by {
            let j = self.spec_idx(k);
            self.lemma_get_at(j);
            if j < i {
                assert(pre.key_at(j) == k);
                pre.lemma_get_at(j);
            } else {
                assert(pre.key_at(j + 1) == k);
                pre.lemma_get_at(j + 1);
            }
        }
        assert(self@ =~= pre@.remove(namev));
    }

    /// Look a profile up by name.
    pub fn get_profile(&self, name: &str) -> (r: Option<&Profile>)
        requires
            self.wf(),
        ensures
            match r {
                Some(p) => self.spec_has(name@) && *p == self@[name@],
                None => !self.spec_has(name@),
            },
    {
        match self.find_index(name) {
            Some(i) => {
                proof {
                    self.lemma_get_at(i as int);
                }
                Some(&self.profiles[i].1)
            },
            None => None,
        }
    }

    /// Whether a profile of this name exists.
    pub fn has_profile(&self, name: &str) -> (r: bool)
        ensures
            r == self.spec_has(name@),
    {
        match self.find_index(name) {
            Some(_) => true,
            None => false,
        }
    }

    /// All profile names, in alphabetical order.
    pub fn profile_names(&self) -> (r: Vec<String>)
        requires
            self.wf(),
        ensures
            r@.len() == self.profiles@.len(),
            forall|i: int| 0 <= i < r@.len() ==> r@[i]@ == self.key_at(i),
            forall|i: int, j: int| 0 <= i < j < r@.len() ==> lex_lt(r@[i]@, r@[j]@),
    {
        let n = self.profiles.len();
        let mut r: Vec<String> = Vec::new();
        let mut i: usize = 0;
        while i < n
            invariant
                i <= n,
                n == self.profiles@.len(),
                r@.len() == i,
                forall|j: int| 0 <= j < i ==> r@[j]@ == self.key_at(j),
            decreases n - i,
        {
            r.push(self.profiles[i].0.clone());
            i += 1;
        }
        proof {
            assert forall|a: int, b: int| 0 <= a < b < r@.len() implies lex_lt(r@[a]@, r@[b]@) by {
                assert(r@[a]@ == self.key_at(a));
                assert(r@[b]@ == self.key_at(b));
            }
        }
        r
    }
}

impl Default for Config {
    /// An empty store: no profiles, no default.
    fn default() -> (c: Config)
        ensures
            c.default_profile is None,
            c.profiles@.len() == 0,
            c.wf(),
    {
        Config { default_profile: None, profiles: Vec::new() }
    }
}

} // verus!
