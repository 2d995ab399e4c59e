//! Bidirectional index between filesystem paths and live-tree ids.
//!
//! One logical binding per path: inserting a path that is already bound
//! replaces the binding (last writer wins), since rebinding happens routinely
//! on refresh. Several paths may map to one id; removing an id removes every
//! binding to it. The view of a `PathMap` is the mathematical map from path
//! to id.

use vstd::prelude::*;
use vstd::map::*;
use crate::tree::RbxId;

verus! {

/// One path-to-id binding.
pub struct PathBinding {
    pub path: String,
    pub id: RbxId,
}

/// The map described by a sequence of bindings, later bindings winning.
pub open spec fn map_of(s: Seq<PathBinding>) -> Map<Seq<char>, nat>
    decreases s.len(),
{
    if s.len() == 0 {
        Map::empty()
    } else {
        map_of(s.drop_last()).insert(s.last().path@, s.last().id as nat)
    }
}

/// No path occurs twice.
pub open spec fn paths_unique(s: Seq<PathBinding>) -> bool {
    forall|i: int, j: int| 0 <= i < j < s.len() ==> s[i].path@ != s[j].path@
}

/// A key is in the map exactly when some binding carries it.
pub proof fn lemma_map_of_contains(s: Seq<PathBinding>, k: Seq<char>)
    ensures
        map_of(s).contains_key(k) <==> exists|i: int| 0 <= i < s.len() && s[i].path@ == k,
    decreases s.len(),
{
    if s.len() > 0 {
        lemma_map_of_contains(s.drop_last(), k);
        if map_of(s).contains_key(k) {
            if s.last().path@ == k {
                assert(s[s.len() - 1].path@ == k);
            }
        }
        if exists|i: int| 0 <= i < s.len() && s[i].path@ == k {
            let i = choose|i: int| 0 <= i < s.len() && s[i].path@ == k;
            if i < s.len() - 1 {
                assert(s.drop_last()[i].path@ == k);
            }
        }
    }
}

/// With unique paths, the binding at `i` gives the map's value at its path.
pub proof fn lemma_map_of_at(s: Seq<PathBinding>, i: int)
    requires
        paths_unique(s),
        0 <= i < s.len(),
    ensures
        map_of(s).contains_key(s[i].path@),
        map_of(s)[s[i].path@] == s[i].id as nat,
    decreases s.len(),
{
    if i == s.len() - 1 {
    } else {
        assert(paths_unique(s.drop_last()));
        assert(s.drop_last()[i] == s[i]);
        lemma_map_of_at(s.drop_last(), i);
        assert(s[i].path@ != s.last().path@);
    }
}

/// Bidirectional index between paths and ids.
pub struct PathMap {
    bindings: Vec<PathBinding>,
}

impl View for PathMap {
    type V = Map<Seq<char>, nat>;

    closed spec fn view(&self) -> Map<Seq<char>, nat> {
        map_of(self.bindings@)
    }
}

impl PathMap {
    /// No path occurs twice among the stored bindings.
    pub closed spec fn wf(&self) -> bool {
        paths_unique(self.bindings@)
    }

    /// The number of bindings held.
    pub closed spec fn size(&self) -> nat {
        self.bindings@.len()
    }

    /// The empty index.
    pub fn new() -> (r: PathMap)
        ensures
            r@ == Map::<Seq<char>, nat>::empty(),
            r.wf(),
    {
        PathMap { bindings: Vec::new() }
    }

    /// The id bound to `path`, if any.
    pub fn get(&self, path: &String) -> (r: Option<RbxId>)
        requires
            self.wf(),
        ensures
            match r {
                Some(id) => self@.contains_key(path@) && self@[path@] == id as nat,
                None => !self@.contains_key(path@),
            },
    {
        let mut i: usize = 0;
        while i < self.bindings.len()
            invariant
                self.wf(),
                i <= self.bindings.len(),
                forall|j: int| 0 <= j < i as int ==> self.bindings@[j].path@ != path@,
            decreases self.bindings.len() - i,
        {
            if self.bindings[i].path == *path {
                proof {
                    lemma_map_of_at(self.bindings@, i as int);
                }
                return Some(self.bindings[i].id);
            }
            i = i + 1;
        }
        proof {
            lemma_map_of_contains(self.bindings@, path@);
        }
        None
    }

    /// Some path bound to `id`: the earliest-bound one still present.
    pub fn get_path(&self, id: RbxId) -> (r: Option<String>)
        requires
            self.wf(),
        ensures
            match r {
                Some(p) => self@.contains_key(p@) && self@[p@] == id as nat,
                None => forall|k: Seq<char>|
                    self@.contains_key(k) ==> self@[k] != id as nat,
            },
    {
        let mut i: usize = 0;
        while i < self.bindings.len()
            invariant
                self.wf(),
                i <= self.bindings.len(),
                forall|j: int| 0 <= j < i as int ==> self.bindings@[j].id != id,
            decreases self.bindings.len() - i,
        {
            if self.bindings[i].id == id {
                proof {
                    lemma_map_of_at(self.bindings@, i as int);
                }
                return Some(self.bindings[i].path.clone());
            }
            i = i + 1;
        }
        proof {
            assert forall|k: Seq<char>| self@.contains_key(k) implies self@[k] != id as nat by {
                lemma_map_of_contains(self.bindings@, k);
                let j = choose|j: int|
                    0 <= j < self.bindings@.len() && self.bindings@[j].path@ == k;
                lemma_map_of_at(self.bindings@, j);
            }
        }
        None
    }

    /// Removes the binding for `path`, returning the id it was bound to.
    pub fn remove(&mut self, path: &String) -> (r: Option<RbxId>)
        requires
            old(self).wf(),
        ensures
            final(self).wf(),
            final(self)@ == old(self)@.remove(path@),
            match r {
                Some(id) => old(self)@.contains_key(path@) && old(self)@[path@] == id as nat
                    && final(self).size() == old(self).size() - 1,
                None => !old(self)@.contains_key(path@) && final(self).size() == old(self).size(),
            },
    {
        let ghost s0 = self.bindings@;
        let mut i: usize = 0;
        while i < self.bindings.len()
            invariant
                self.bindings@ == s0,
                old(self).bindings@ == s0,
                paths_unique(s0),
                i <= self.bindings.len(),
                forall|j: int| 0 <= j < i as int ==> self.bindings@[j].path@ != path@,
            decreases self.bindings.len() - i,
        {
            if self.bindings[i].path == *path {
                proof {
                    assert(s0[i as int].path@ == path@);
                    lemma_map_of_at(s0, i as int);
                    lemma_map_of_remove_at(s0, i as int);
                }
                let b = self.bindings.remove(i);
                proof {
                    assert(self.bindings@ =~= s0.remove(i as int));
                    assert forall|x: int, y: int|
                        0 <= x < y < self.bindings@.len() implies self.bindings@[x].path@
                        != self.bindings@[y].path@ by {
                        if y < i as int {
                            assert(s0[x].path@ != s0[y].path@);
                        } else if x < i as int {
                            assert(s0[x].path@ != s0[y + 1].path@);
                        } else {
                            assert(s0[x + 1].path@ != s0[y + 1].path@);
                        }
                    }
                }
                return Some(b.id);
            }
            i = i + 1;
        }
        proof {
            lemma_map_of_contains(s0, path@);
            assert(self@ =~= old(self)@.remove(path@));
        }
        None
    }

    /// Binds `path` to `id`, replacing any existing binding for that path:
    /// rebinding a path to a new id drops the old binding.
    pub fn insert(&mut self, path: String, id: RbxId)
        requires
            old(self).wf(),
        ensures
            final(self).wf(),
            final(self)@ == old(self)@.insert(path@, id as nat),
    {
        let _ = self.remove(&path);
        let ghost mid = self.bindings@;
        proof {
            lemma_map_of_contains(mid, path@);
        }
        self.bindings.push(PathBinding { path, id });
        proof {
            assert(self.bindings@.drop_last() =~= mid);
            assert(self@ =~= old(self)@.insert(self.bindings@.last().path@, id as nat));
        }
    }

    /// Removes every binding to `id`: no path maps to a removed instance.
    /// Every binding to another id is kept unchanged.
    pub fn remove_id(&mut self, id: RbxId)
        requires
            old(self).wf(),
        ensures
            final(self).wf(),
            final(self)@ == old(self)@.remove_keys(bound_to(old(self)@, id)),
        decreases old(self).size(),
    {
        match self.get_path(id) {
            None => {
                proof {
                    assert(self@ =~= old(self)@.remove_keys(bound_to(old(self)@, id)));
                }
            },
            Some(p) => {
                let ghost pre = self@;
                let _ = self.remove(&p);
                let ghost mid = self@;
                self.remove_id(id);
                proof {
                    assert(pre.contains_key(p@) && pre[p@] == id as nat);
                    assert(mid == pre.remove(p@));
                    assert(self@ == mid.remove_keys(bound_to(mid, id)));
                    assert(self@ =~= pre.remove_keys(bound_to(pre, id)));
                }
            },
        }
    }
}

/// The paths that a map binds to `id`.
pub open spec fn bound_to(m: Map<Seq<char>, nat>, id: RbxId) -> Set<Seq<char>> {
    Set::new(|k: Seq<char>| m.contains_key(k) && m[k] == id as nat)
}

/// Removing the binding at `i` removes exactly its path from the map.
pub proof fn lemma_map_of_remove_at(s: Seq<PathBinding>, i: int)
    requires
        paths_unique(s),
        0 <= i < s.len(),
    ensures
        map_of(s.remove(i)) == map_of(s).remove(s[i].path@),
    decreases s.len(),
{
    if i == s.len() - 1 {
        assert(s.remove(i) =~= s.drop_last());
        lemma_map_of_contains(s.drop_last(), s[i].path@);
        assert forall|j: int| 0 <= j < s.drop_last().len() implies s.drop_last()[j].path@ != s[
            i
        ].path@ by {
            assert(s[j].path@ != s[i].path@);
        }
        assert(map_of(s.drop_last()) =~= map_of(s.drop_last()).remove(s[i].path@));
        assert(map_of(s).remove(s[i].path@) =~= map_of(s.drop_last()).remove(s[i].path@));
    } else {
        assert(paths_unique(s.drop_last()));
        assert(s.drop_last()[i] == s[i]);
        lemma_map_of_remove_at(s.drop_last(), i);
        assert(s.remove(i).drop_last() =~= s.drop_last().remove(i));
        assert(s.remove(i).last() == s.last());
        assert(s[i].path@ != s.last().path@);
        assert(map_of(s.remove(i)) == map_of(s.drop_last().remove(i)).insert(
            s.last().path@,
            s.last().id as nat,
        ));
        assert(map_of(s.remove(i)) =~= map_of(s).remove(s[i].path@));
    }
}

} // verus!