//! The watchlist store: a durable-format-agnostic, in-memory mapping of
//! repository paths to group memberships.
//!
//! Paths and group names are kept in first-registration order and are unique;
//! a membership is a (repository, group) pair, unique as a pair. Registering
//! an already-present path, group, or pair is a silent no-op.

use vstd::prelude::*;

verus! {

/// The mathematical content of a [`Watchlist`]: the registered paths in
/// order, the known group names in order, and the set of membership pairs.
#[verifier::ext_equal]
pub ghost struct StoreModel {
    pub paths: Seq<Seq<char>>,
    pub groups: Seq<Seq<char>>,
    pub members: Set<(Seq<char>, Seq<char>)>,
}

/// What registering `path` (optionally into `group`) does to a store model:
/// the path is appended if absent, the group is created if named and absent,
/// and the membership pair is added to the set (a no-op if already present).
pub open spec fn register_spec(m: StoreModel, path: Seq<char>, group: Option<Seq<char>>) -> StoreModel {
    StoreModel {
        paths: if m.paths.contains(path) {
            m.paths
        } else {
            m.paths.push(path)
        },
        groups: match group {
            Option::None => m.groups,
            Option::Some(g) => if m.groups.contains(g) {
                m.groups
            } else {
                m.groups.push(g)
            },
        },
        members: match group {
            Option::None => m.members,
            Option::Some(g) => m.members.insert((path, g)),
        },
    }
}

/// The watchlist of repositories and their group memberships.
pub struct Watchlist {
    pub repos: Vec<String>,
    pub groups: Vec<String>,
    pub members: Vec<(usize, usize)>,
}

impl View for Watchlist {
    type V = StoreModel;

    open spec fn view(&self) -> StoreModel {
        StoreModel {
            paths: self.repos@.map_values(|p: String| p@),
            groups: self.groups@.map_values(|g: String| g@),
            members: self.member_set(),
        }
    }
}

impl Watchlist {
    /// The registered repository paths, in first-registration order.
    pub open spec fn paths(self) -> Seq<Seq<char>> {
        self.repos@.map_values(|p: String| p@)
    }

    /// The known group names, in first-creation order.
    pub open spec fn group_names(self) -> Seq<Seq<char>> {
        self.groups@.map_values(|g: String| g@)
    }

    /// The set of membership pairs, as (path, group name) values.
    pub open spec fn member_set(self) -> Set<(Seq<char>, Seq<char>)> {
        Set::new(
            |pr: (Seq<char>, Seq<char>)|
                exists|k: int|
                    0 <= k < self.members@.len() && (#[trigger] self.members@[k]).0
                        < self.repos@.len() && self.members@[k].1 < self.groups@.len()
                        && self.repos@[self.members@[k].0 as int]@ == pr.0
                        && self.groups@[self.members@[k].1 as int]@ == pr.1,
        )
    }

    /// Well-formedness: paths unique, group names unique, membership rows
    /// reference valid indices and are unique as pairs.
    pub open spec fn wf(self) -> bool {
        &&& forall|i: int, j: int|
            0 <= i < j < self.repos@.len() ==> self.repos@[i]@ != self.repos@[j]@
        &&& forall|i: int, j: int|
            0 <= i < j < self.groups@.len() ==> self.groups@[i]@ != self.groups@[j]@
        &&& forall|k: int|
            0 <= k < self.members@.len() ==> (#[trigger] self.members@[k]).0 < self.repos@.len()
                && self.members@[k].1 < self.groups@.len()
        &&& forall|k: int, l: int|
            0 <= k < l < self.members@.len() ==> self.members@[k] != self.members@[l]
    }

    /// An empty watchlist.
    pub fn new() -> (w: Watchlist)
        ensures
            w.wf(),
            w@.paths == Seq::<Seq<char>>::empty(),
            w@.groups == Seq::<Seq<char>>::empty(),
            w@.members == Set::<(Seq<char>, Seq<char>)>::empty(),
    {
        let w = Watchlist { repos: Vec::new(), groups: Vec::new(), members: Vec::new() };
        proof {
            assert(w@.paths =~= Seq::<Seq<char>>::empty());
            assert(w@.groups =~= Seq::<Seq<char>>::empty());
            assert(w@.members =~= Set::<(Seq<char>, Seq<char>)>::empty());
        }
        w
    }

    /// The number of membership rows currently stored.
    pub fn membership_count(&self) -> (n: usize)
        ensures
            n == self.members@.len(),
    {
        self.members.len()
    }

    /// In a well-formed store, a membership pair of values is present exactly
    /// when the row of the corresponding indices is present.
    proof fn lemma_row_iff_pair(self, ri: usize, gi: usize)
        requires
            self.wf(),
            ri < self.repos@.len(),
            gi < self.groups@.len(),
        ensures
            self.member_set().contains((self.repos@[ri as int]@, self.groups@[gi as int]@))
                <==> exists|k: int|
                0 <= k < self.members@.len() && self.members@[k] == (ri, gi),
    {
        let p = self.repos@[ri as int]@;
        let g = self.groups@[gi as int]@;
        if self.member_set().contains((p, g)) {
            let k = choose|k: int|
                0 <= k < self.members@.len() && (#[trigger] self.members@[k]).0
                    < self.repos@.len() && self.members@[k].1 < self.groups@.len()
                    && self.repos@[self.members@[k].0 as int]@ == p
                    && self.groups@[self.members@[k].1 as int]@ == g;
            let r2 = self.members@[k].0 as int;
            let g2 = self.members@[k].1 as int;
            assert(r2 == ri as int) by {
                if r2 < ri as int {
                    assert(self.repos@[r2]@ != self.repos@[ri as int]@);
                } else if (ri as int) < r2 {
                    assert(self.repos@[ri as int]@ != self.repos@[r2]@);
                }
            }
            assert(g2 == gi as int) by {
                if g2 < gi as int {
                    assert(self.groups@[g2]@ != self.groups@[gi as int]@);
                } else if (gi as int) < g2 {
                    assert(self.groups@[gi as int]@ != self.groups@[g2]@);
                }
            }
            assert(self.members@[k] == (ri, gi));
        }
        if exists|k: int| 0 <= k < self.members@.len() && self.members@[k] == (ri, gi) {
            let k = choose|k: int| 0 <= k < self.members@.len() && self.members@[k] == (ri, gi);
            assert(self.members@[k].0 == ri && self.members@[k].1 == gi);
            assert(0 <= k < self.members@.len() && (self.members@[k]).0 < self.repos@.len()
                && self.members@[k].1 < self.groups@.len()
                && self.repos@[self.members@[k].0 as int]@ == p
                && self.groups@[self.members@[k].1 as int]@ == g);
            assert(self.member_set().contains((p, g)));
        }
    }

    /// Registers a repository, optionally into a group. Inserts the path if
    /// absent, creates the group if named and absent, and records the
    /// membership pair unless it is already present (a silent no-op). The
    /// whole operation is idempotent.
    pub fn add_repository(&mut self, path: String, group: Option<String>)
        requires
            old(self).wf(),
        ensures
            final(self).wf(),
            final(self)@ == register_spec(old(self)@, path@, group.deep_view()),
            group is None ==> final(self).members@ == old(self).members@,
            group matches Some(g) ==> final(self).members@.len() == old(self).members@.len() + (
            if old(self)@.members.contains((path@, g@)) {
                0int
            } else {
                1int
            }),
    {
        let ghost m0 = old(self)@;
        let ri: usize = match find_string(&self.repos, &path) {
            Option::Some(i) => i,
            Option::None => {
                let n = self.repos.len();
                self.repos.push(path);
                n
            },
        };
        proof {
            // The path slot `ri` carries the registered path, the old prefix
            // of `repos` is unchanged, and `paths` matches the model step.
            assert(self.repos@[ri as int]@ == path@);
            assert(forall|j: int| 0 <= j < m0.paths.len() ==> self.repos@[j] == old(self).repos@[j]);
            if m0.paths.contains(path@) {
                let j = choose|j: int| 0 <= j < m0.paths.len() && m0.paths[j] == path@;
                assert(old(self).repos@[j]@ == path@);
                assert(self.paths() =~~= m0.paths);
            } else {
                assert(forall|j: int| 0 <= j < old(self).repos@.len()
                    ==> (#[trigger] old(self).repos@[j])@ != path@) by {
                    if exists|j: int|
                        0 <= j < old(self).repos@.len() && (#[trigger] old(self).repos@[j])@
                            == path@ {
                        let j = choose|j: int|
                            0 <= j < old(self).repos@.len() && (#[trigger] old(self).repos@[j])@
                                == path@;
                        assert(m0.paths[j] == path@);
                        assert(m0.paths.contains(path@));
                    }
                }
                assert(self.paths() =~~= m0.paths.push(path@));
            }
            assert(forall|i: int, j: int|
                0 <= i < j < self.repos@.len() ==> self.repos@[i]@ != self.repos@[j]@);
        }
        let ghost repos1 = self.repos@;
        match group {
            Option::None => {
                proof {
                    assert(self.member_set() =~~= m0.members) by {
                        assert forall|pr: (Seq<char>, Seq<char>)|
                            self.member_set().contains(pr) implies m0.members.contains(pr) by {
                            let k = choose|k: int|
                                0 <= k < self.members@.len() && (#[trigger] self.members@[k]).0
                                    < self.repos@.len() && self.members@[k].1 < self.groups@.len()
                                    && self.repos@[self.members@[k].0 as int]@ == pr.0
                                    && self.groups@[self.members@[k].1 as int]@ == pr.1;
                            assert(old(self).members@[k] == self.members@[k]);
                            assert(old(self).repos@[self.members@[k].0 as int]@ == pr.0);
                            assert(old(self).member_set().contains(pr));
                        }
                        assert forall|pr: (Seq<char>, Seq<char>)|
                            m0.members.contains(pr) implies self.member_set().contains(pr) by {
                            let k = choose|k: int|
                                0 <= k < old(self).members@.len() && (#[trigger] old(
                                    self,
                                ).members@[k]).0 < old(self).repos@.len()
                                    && old(self).members@[k].1 < old(self).groups@.len() && old(
                                    self,
                                ).repos@[old(self).members@[k].0 as int]@ == pr.0 && old(
                                    self,
                                ).groups@[old(self).members@[k].1 as int]@ == pr.1;
                            assert(self.members@[k] == old(self).members@[k]);
                            assert(self.repos@[self.members@[k].0 as int]@ == pr.0);
                        }
                    }
                    assert(self@ =~~= register_spec(m0, path@, group.deep_view()));
                }
            },
            Option::Some(g) => {
                let gi: usize = match find_string(&self.groups, &g) {
                    Option::Some(i) => i,
                    Option::None => {
                        let n = self.groups.len();
                        self.groups.push(g);
                        n
                    },
                };
                proof {
                    assert(self.groups@[gi as int]@ == g@);
                    assert(forall|j: int|
                        0 <= j < m0.groups.len() ==> self.groups@[j] == old(self).groups@[j]);
                    if m0.groups.contains(g@) {
                        let j = choose|j: int| 0 <= j < m0.groups.len() && m0.groups[j] == g@;
                        assert(old(self).groups@[j]@ == g@);
                        assert(self.group_names() =~~= m0.groups);
                    } else {
                        assert(forall|j: int| 0 <= j < old(self).groups@.len()
                            ==> (#[trigger] old(self).groups@[j])@ != g@) by {
                            if exists|j: int|
                                0 <= j < old(self).groups@.len() && (#[trigger] old(
                                    self,
                                ).groups@[j])@ == g@ {
                                let j = choose|j: int|
                                    0 <= j < old(self).groups@.len() && (#[trigger] old(
                                        self,
                                    ).groups@[j])@ == g@;
                                assert(m0.groups[j] == g@);
                                assert(m0.groups.contains(g@));
                            }
                        }
                        assert(self.group_names() =~~= m0.groups.push(g@));
                    }
                    assert(forall|i: int, j: int|
                        0 <= i < j < self.groups@.len() ==> self.groups@[i]@ != self.groups@[j]@);
                }
                let ghost mid = *self;
                let present = has_member_row(&self.members, ri, gi);
                proof {
                    // Rows are unchanged so far; the membership set at `mid`
                    // equals the old one.
                    assert(mid.member_set() =~~= m0.members) by {
                        assert forall|pr: (Seq<char>, Seq<char>)|
                            mid.member_set().contains(pr) implies m0.members.contains(pr) by {
                            let k = choose|k: int|
                                0 <= k < mid.members@.len() && (#[trigger] mid.members@[k]).0
                                    < mid.repos@.len() && mid.members@[k].1 < mid.groups@.len()
                                    && mid.repos@[mid.members@[k].0 as int]@ == pr.0
                                    && mid.groups@[mid.members@[k].1 as int]@ == pr.1;
                            assert(old(self).members@[k] == mid.members@[k]);
                            assert(old(self).repos@[mid.members@[k].0 as int]@ == pr.0);
                            assert(old(self).groups@[mid.members@[k].1 as int]@ == pr.1);
                            assert(old(self).member_set().contains(pr));
                        }
                        assert forall|pr: (Seq<char>, Seq<char>)|
                            m0.members.contains(pr) implies mid.member_set().contains(pr) by {
                            let k = choose|k: int|
                                0 <= k < old(self).members@.len() && (#[trigger] old(
                                    self,
                                ).members@[k]).0 < old(self).repos@.len()
                                    && old(self).members@[k].1 < old(self).groups@.len() && old(
                                    self,
                                ).repos@[old(self).members@[k].0 as int]@ == pr.0 && old(
                                    self,
                                ).groups@[old(self).members@[k].1 as int]@ == pr.1;
                            assert(mid.members@[k] == old(self).members@[k]);
                            assert(mid.repos@[mid.members@[k].0 as int]@ == pr.0);
                            assert(mid.groups@[mid.members@[k].1 as int]@ == pr.1);
                        }
                    }
                    mid.lemma_row_iff_pair(ri, gi);
                    assert(present <==> m0.members.contains((path@, g@)));
                }
                if !present {
                    self.members.push((ri, gi));
                    proof {
                        assert(self.member_set() =~~= m0.members.insert((path@, g@))) by {
                            assert forall|pr: (Seq<char>, Seq<char>)|
                                self.member_set().contains(pr) implies m0.members.insert(
                                (path@, g@),
                            ).contains(pr) by {
                                let k = choose|k: int|
                                    0 <= k < self.members@.len() && (#[trigger] self.members@[k]).0
                                        < self.repos@.len() && self.members@[k].1
                                        < self.groups@.len()
                                        && self.repos@[self.members@[k].0 as int]@ == pr.0
                                        && self.groups@[self.members@[k].1 as int]@ == pr.1;
                                if k < mid.members@.len() {
                                    assert(mid.member_set().contains(pr));
                                } else {
                                    assert(self.members@[k] == (ri, gi));
                                    assert(pr == (path@, g@));
                                }
                            }
                            assert forall|pr: (Seq<char>, Seq<char>)|
                                m0.members.insert((path@, g@)).contains(pr) implies
                                self.member_set().contains(pr) by {
                                if pr == (path@, g@) {
                                    let k = mid.members@.len() as int;
                                    assert(self.members@[k] == (ri, gi));
                                    assert(self.repos@[ri as int]@ == path@);
                                    assert(self.groups@[gi as int]@ == g@);
                                } else {
                                    assert(mid.member_set().contains(pr));
                                    let k = choose|k: int|
                                        0 <= k < mid.members@.len()
                                            && (#[trigger] mid.members@[k]).0 < mid.repos@.len()
                                            && mid.members@[k].1 < mid.groups@.len()
                                            && mid.repos@[mid.members@[k].0 as int]@ == pr.0
                                            && mid.groups@[mid.members@[k].1 as int]@ == pr.1;
                                    assert(self.members@[k] == mid.members@[k]);
                                }
                            }
                        }
                        assert(self@ =~~= register_spec(m0, path@, group.deep_view()));
                    }
                } else {
                    proof {
                        assert(m0.members.insert((path@, g@)) =~~= m0.members);
                        assert(self@ =~~= register_spec(m0, path@, group.deep_view()));
                    }
                }
            },
        }
    }
    /// The membership test for one group, as a predicate on paths.
    pub open spec fn member_pred(self, g: Seq<char>) -> spec_fn(Seq<char>) -> bool {
        |p: Seq<char>| self.member_set().contains((p, g))
    }

    /// What a listing returns: all paths when no group is named, otherwise
    /// exactly the paths with a membership row for the named group, in
    /// registration order.
    pub open spec fn listed(self, group: Option<Seq<char>>) -> Seq<Seq<char>> {
        match group {
            Option::None => self.paths(),
            Option::Some(g) => self.paths().filter(self.member_pred(g)),
        }
    }

    /// Returns the repository paths in scope: all of them when `group` is
    /// absent, otherwise exactly the members of the named group. A missing
    /// or empty group yields an empty listing, not an error.
    pub fn get_repositories(&self, group: Option<&String>) -> (r: Vec<String>)
        requires
            self.wf(),
        ensures
            r@.map_values(|p: String| p@) == self.listed(group.deep_view()),
    {
        match group {
            Option::None => {
                let mut out: Vec<String> = Vec::new();
                let mut i: usize = 0;
                while i < self.repos.len()
                    invariant
                        i <= self.repos@.len(),
                        out@.len() == i,
                        forall|j: int| 0 <= j < i ==> (#[trigger] out@[j])@ == self.repos@[j]@,
                    decreases self.repos@.len() - i,
                {
                    out.push(self.repos[i].clone());
                    i = i + 1;
                }
                proof {
                    assert(out@.map_values(|p: String| p@) =~~= self.paths());
                }
                out
            },
            Option::Some(g) => {
                let found = find_string(&self.groups, g);
                match found {
                    Option::None => {
                        let out: Vec<String> = Vec::new();
                        proof {
                            let pred = self.member_pred(g@);
                            assert forall|j: int| 0 <= j < self.paths().len() implies !pred(
                                self.paths()[j],
                            ) by {
                                if pred(self.paths()[j]) {
                                    let k = choose|k: int|
                                        0 <= k < self.members@.len()
                                            && (#[trigger] self.members@[k]).0 < self.repos@.len()
                                            && self.members@[k].1 < self.groups@.len()
                                            && self.repos@[self.members@[k].0 as int]@
                                            == self.paths()[j]
                                            && self.groups@[self.members@[k].1 as int]@ == g@;
                                    assert(self.groups@[self.members@[k].1 as int]@ == g@);
                                }
                            }
                            lemma_filter_all_excluded(self.paths(), pred);
                            assert(out@.map_values(|p: String| p@) =~~= self.listed(
                                Option::Some(g@),
                            ));
                        }
                        out
                    },
                    Option::Some(gi) => {
                        let mut out: Vec<String> = Vec::new();
                        let mut i: usize = 0;
                        proof {
                            let pred = self.member_pred(g@);
                            assert(out@.map_values(|p: String| p@) =~~= self.paths().take(
                                0,
                            ).filter(pred));
                        }
                        while i < self.repos.len()
                            invariant
                                self.wf(),
                                i <= self.repos@.len(),
                                gi < self.groups@.len(),
                                self.groups@[gi as int]@ == g@,
                                out@.map_values(|p: String| p@) == self.paths().take(
                                    i as int,
                                ).filter(self.member_pred(g@)),
                            decreases self.repos@.len() - i,
                        {
                            let keep = has_member_row(&self.members, i, gi);
                            proof {
                                let pred = self.member_pred(g@);
                                self.lemma_row_iff_pair(i, gi);
                                assert(keep == pred(self.paths()[i as int]));
                                reveal(Seq::filter);
                                assert(self.paths().take(i as int + 1).drop_last()
                                    =~~= self.paths().take(i as int));
                                assert(self.paths().take(i as int + 1).last() == self.paths()[
                                    i as int
                                ]);
                            }
                            if keep {
                                out.push(self.repos[i].clone());
                                proof {
                                    let pred = self.member_pred(g@);
                                    assert(out@.map_values(|p: String| p@) =~~= self.paths().take(
                                        i as int,
                                    ).filter(pred).push(self.paths()[i as int]));
                                    assert(out@.map_values(|p: String| p@) =~~= self.paths().take(
                                        i as int + 1,
                                    ).filter(pred));
                                }
                            } else {
                                proof {
                                    let pred = self.member_pred(g@);
                                    assert(out@.map_values(|p: String| p@) =~~= self.paths().take(
                                        i as int + 1,
                                    ).filter(pred));
                                }
                            }
                            i = i + 1;
                        }
                        proof {
                            assert(self.paths().take(self.repos@.len() as int) =~~= self.paths());
                        }
                        out
                    },
                }
            },
        }
    }
}

/// If no element of a sequence satisfies the predicate, the filtered
/// sequence is empty.
proof fn lemma_filter_all_excluded<A>(s: Seq<A>, pred: spec_fn(A) -> bool)
    requires
        forall|i: int| 0 <= i < s.len() ==> !pred(s[i]),
    ensures
        s.filter(pred) == Seq::<A>::empty(),
    decreases s.len(),
{
    reveal(Seq::filter);
    if s.len() > 0 {
        lemma_filter_all_excluded(s.drop_last(), pred);
    }
    assert(s.filter(pred) =~= Seq::<A>::empty());
}

/// Every element of a filtered sequence comes from the original sequence and
/// satisfies the predicate.
proof fn lemma_filter_membership<A>(s: Seq<A>, pred: spec_fn(A) -> bool, x: A)
    requires
        s.filter(pred).contains(x),
    ensures
        s.contains(x),
        pred(x),
    decreases s.len(),
{
    reveal(Seq::filter);
    if s.len() > 0 {
        if pred(s.last()) && x == s.last() {
            assert(s[s.len() - 1] == x);
        } else {
            lemma_filter_membership(s.drop_last(), pred, x);
            let j = choose|j: int| 0 <= j < s.drop_last().len() && s.drop_last()[j] == x;
            assert(s[j] == x);
        }
    }
}

/// Registering the same path and group a second time changes nothing:
/// the membership row exists exactly once however often the pair is
/// registered.
pub proof fn lemma_register_idempotent(m: StoreModel, path: Seq<char>, group: Option<Seq<char>>)
    ensures
        register_spec(register_spec(m, path, group), path, group) == register_spec(m, path, group),
{
    let m1 = register_spec(m, path, group);
    assert(m1.paths.contains(path)) by {
        if m.paths.contains(path) {
            let j = choose|j: int| 0 <= j < m.paths.len() && m.paths[j] == path;
            assert(m1.paths[j] == path);
        } else {
            assert(m1.paths[m.paths.len() as int] == path);
        }
    }
    match group {
        Option::None => {
            assert(register_spec(m1, path, group) =~~= m1);
        },
        Option::Some(g) => {
            assert(m1.groups.contains(g)) by {
                if m.groups.contains(g) {
                    let j = choose|j: int| 0 <= j < m.groups.len() && m.groups[j] == g;
                    assert(m1.groups[j] == g);
                } else {
                    assert(m1.groups[m.groups.len() as int] == g);
                }
            }
            assert(m1.members.insert((path, g)) =~~= m1.members);
            assert(register_spec(m1, path, group) =~~= m1);
        },
    }
}

/// Registration is never lost: after registering a path, the store's path
/// sequence holds it, whatever it held before.
pub proof fn lemma_register_lists_path(m: StoreModel, path: Seq<char>, group: Option<Seq<char>>)
    ensures
        register_spec(m, path, group).paths.contains(path),
        group matches Some(g) ==> register_spec(m, path, group).members.contains((path, g)),
{
    let m1 = register_spec(m, path, group);
    if m.paths.contains(path) {
        let j = choose|j: int| 0 <= j < m.paths.len() && m.paths[j] == path;
        assert(m1.paths[j] == path);
    } else {
        assert(m1.paths[m.paths.len() as int] == path);
    }
}

/// A full listing returns every registered repository exactly once: the
/// listed paths of a well-formed store are pairwise distinct.
pub proof fn lemma_list_all_unique(w: Watchlist)
    requires
        w.wf(),
    ensures
        w.listed(Option::None) == w.paths(),
        forall|i: int, j: int|
            0 <= i < j < w.listed(Option::None).len() ==> w.listed(Option::None)[i] != w.listed(
                Option::None,
            )[j],
{
}

/// A group listing returns exactly the registered repositories that have a
/// membership row for that group; being a pure function of the store state,
/// it is stable across repeated calls absent further mutation.
pub proof fn lemma_listed_exactly(w: Watchlist, g: Seq<char>)
    requires
        w.wf(),
    ensures
        forall|p: Seq<char>|
            #[trigger] w.listed(Option::Some(g)).contains(p) <==> w.paths().contains(p)
                && w.member_set().contains((p, g)),
{
    let pred = w.member_pred(g);
    assert forall|p: Seq<char>| #[trigger]
        w.listed(Option::Some(g)).contains(p) implies w.paths().contains(p)
        && w.member_set().contains((p, g)) by {
        lemma_filter_membership(w.paths(), pred, p);
        assert(pred(p));
    }
    assert forall|p: Seq<char>|
        w.paths().contains(p) && w.member_set().contains((p, g)) implies #[trigger] w.listed(
        Option::Some(g),
    ).contains(p) by {
        broadcast use vstd::seq_lib::group_filter_ensures;

        let j = choose|j: int| 0 <= j < w.paths().len() && w.paths()[j] == p;
        assert(pred(w.paths()[j]));
        assert(w.paths().filter(pred).contains(w.paths()[j]));
    }
}

/// Finds the index of the string with the given characters, if any.
fn find_string(v: &Vec<String>, x: &String) -> (r: Option<usize>)
    ensures
        match r {
            Option::Some(i) => i < v@.len() && v@[i as int]@ == x@,
            Option::None => forall|j: int| 0 <= j < v@.len() ==> (#[trigger] v@[j])@ != x@,
        },
{
    let mut i: usize = 0;
    while i < v.len()
        invariant
            i <= v@.len(),
            forall|j: int| 0 <= j < i ==> (#[trigger] v@[j])@ != x@,
        decreases v@.len() - i,
    {
        if v[i] == *x {
            return Option::Some(i);
        }
        i = i + 1;
    }
    Option::None
}

/// Is the exact membership row (ri, gi) present?
fn has_member_row(members: &Vec<(usize, usize)>, ri: usize, gi: usize) -> (r: bool)
    ensures
        r == exists|k: int| 0 <= k < members@.len() && members@[k] == (ri, gi),
{
    let mut i: usize = 0;
    while i < members.len()
        invariant
            i <= members@.len(),
            forall|k: int| 0 <= k < i ==> members@[k] != (ri, gi),
        decreases members@.len() - i,
    {
        if members[i].0 == ri && members[i].1 == gi {
            assert(members@[i as int] == (ri, gi));
            return true;
        }
        i = i + 1;
    }
    false
}

} // verus!
