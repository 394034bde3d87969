//! The variable store: a mapping from identifier to signed integer value.
//!
//! The store is modelled as a `Map<Seq<char>, i32>`; a name that was never
//! assigned has no entry, and absence (not a zero default) is what a lookup
//! of such a name reports.

use vstd::prelude::*;
use crate::chars::str_eq;

verus! {

/// What a lookup yields: the stored value, or absence.
pub open spec fn lookup(m: Map<Seq<char>, i32>, name: Seq<char>) -> Option<i32> {
    if m.contains_key(name) {
        Some(m[name])
    } else {
        None
    }
}

/// The store of named integer variables.
pub struct GlobalState {
    vars: Vec<(String, i32)>,
}

/// The map denoted by an association list; a later entry would shadow an
/// earlier one, but the store keeps at most one entry per name.
spec fn map_of(s: Seq<(String, i32)>) -> Map<Seq<char>, i32>
    decreases s.len(),
{
    if s.len() == 0 {
        Map::empty()
    } else {
        map_of(s.drop_last()).insert(s.last().0@, s.last().1)
    }
}

/// No two entries share a name.
spec fn unique_keys(s: Seq<(String, i32)>) -> bool {
    forall|i: int, j: int|
        0 <= i < j < s.len() ==> (#[trigger] s[i]).0@ != (#[trigger] s[j]).0@
}

proof fn lemma_map_of_contains(s: Seq<(String, i32)>, k: Seq<char>)
    ensures
        map_of(s).contains_key(k) <==> exists|i: int| 0 <= i < s.len() && (#[trigger] s[i]).0@ == k,
    decreases s.len(),
{
    if s.len() > 0 {
        lemma_map_of_contains(s.drop_last(), k);
        if s.last().0@ == k {
            assert(s[s.len() - 1].0@ == k);
        } else {
            if map_of(s).contains_key(k) {
                let i = choose|i: int| 0 <= i < s.drop_last().len() && (#[trigger] s.drop_last()[i]).0@ == k;
                assert(s[i].0@ == k);
            }
            if exists|i: int| 0 <= i < s.len() && (#[trigger] s[i]).0@ == k {
                let i = choose|i: int| 0 <= i < s.len() && (#[trigger] s[i]).0@ == k;
                assert(i < s.len() - 1);
                assert(s.drop_last()[i].0@ == k);
            }
        }
    }
}

proof fn lemma_map_of_at(s: Seq<(String, i32)>, i: int)
    requires
        unique_keys(s),
        0 <= i < s.len(),
    ensures
        map_of(s).contains_key(s[i].0@),
        map_of(s)[s[i].0@] == s[i].1,
    decreases s.len(),
{
    if i == s.len() - 1 {
    } else {
        assert(unique_keys(s.drop_last()));
        assert(s.drop_last()[i] == s[i]);
        lemma_map_of_at(s.drop_last(), i);
        assert(s[i].0@ != s.last().0@);
    }
}

proof fn lemma_map_of_push(s: Seq<(String, i32)>, p: (String, i32))
    ensures
        map_of(s.push(p)) == map_of(s).insert(p.0@, p.1),
{
    assert(s.push(p).drop_last() =~= s);
    assert(s.push(p).last() == p);
}

proof fn lemma_map_of_remove(s: Seq<(String, i32)>, i: int)
    requires
        unique_keys(s),
        0 <= i < s.len(),
    ensures
        map_of(s.remove(i)) == map_of(s).remove(s[i].0@),
    decreases s.len(),
{
    let k = s[i].0@;
    if i == s.len() - 1 {
        assert(s.remove(i) =~= s.drop_last());
        lemma_map_of_contains(s.drop_last(), k);
        assert forall|j: int| 0 <= j < s.drop_last().len() implies (#[trigger] s.drop_last()[j]).0@ != k by {
            assert(s[j].0@ == s.drop_last()[j].0@);
        }
        assert(!map_of(s.drop_last()).contains_key(k));
        assert(map_of(s.drop_last()).insert(k, s.last().1).remove(k) =~= map_of(s.drop_last()));
    } else {
        let t = s.remove(i);
        let lk = s.last().0@;
        let lv = s.last().1;
        assert(t.len() == s.len() - 1);
        assert(t.last() == s.last());
        assert(t.drop_last() =~= s.drop_last().remove(i));
        assert(unique_keys(s.drop_last()));
        assert(s.drop_last()[i] == s[i]);
        lemma_map_of_remove(s.drop_last(), i);
        assert(k != lk);
        assert(map_of(t) == map_of(s.drop_last()).remove(k).insert(lk, lv));
        assert(map_of(s.drop_last()).remove(k).insert(lk, lv) =~= map_of(s.drop_last()).insert(
            lk,
            lv,
        ).remove(k));
    }
}

impl View for GlobalState {
    type V = Map<Seq<char>, i32>;

    closed spec fn view(&self) -> Map<Seq<char>, i32> {
        map_of(self.vars@)
    }
}

impl GlobalState {
    /// The store's internal invariant: entry names are pairwise distinct.
    pub closed spec fn wf(self) -> bool {
        unique_keys(self.vars@)
    }

    /// Creates an empty store: no name has an entry.
    pub fn new() -> (s: Self)
        ensures
            s.wf(),
            s@ == Map::<Seq<char>, i32>::empty(),
    {
        GlobalState { vars: Vec::new() }
    }

    /// Index of the entry named `name`, if one exists.
    fn find_idx(&self, name: &str) -> (r: Option<usize>)
        ensures
            match r {
                Some(i) => i < self.vars@.len() && self.vars@[i as int].0@ == name@,
                None => forall|j: int|
                    0 <= j < self.vars@.len() ==> (#[trigger] self.vars@[j]).0@ != name@,
            },
    {
        let n = self.vars.len();
        let mut i: usize = 0;
        while i < n
            invariant
                n == self.vars@.len(),
                i <= n,
                forall|j: int| 0 <= j < i ==> (#[trigger] self.vars@[j]).0@ != name@,
            decreases n - i,
        {
            if str_eq(self.vars[i].0.as_str(), name) {
                return Some(i);
            }
            i += 1;
        }
        None
    }

    /// Unconditionally inserts or overwrites the entry for `name`;
    /// returns the value just stored.
    pub fn update_var(&mut self, name: String, new_val: i32) -> (r: i32)
        requires
            old(self).wf(),
        ensures
            final(self).wf(),
            final(self)@ == old(self)@.insert(name@, new_val),
            r == new_val,
    {
        match self.find_idx(name.as_str()) {
            Some(i) => {
                proof {
                    lemma_map_of_remove(self.vars@, i as int);
                }
                let ghost s0 = self.vars@;
                self.vars.remove(i);
                proof {
                    assert forall|a: int, b: int|
                        0 <= a < b < self.vars@.len() implies (#[trigger] self.vars@[a]).0@
                        != (#[trigger] self.vars@[b]).0@ by {
                        assert(self.vars@[a] == if a < i { s0[a] } else { s0[a + 1] });
                        assert(self.vars@[b] == if b < i { s0[b] } else { s0[b + 1] });
                    }
                    assert forall|a: int| 0 <= a < self.vars@.len() implies (#[trigger] self.vars@[a]).0@
                        != name@ by {
                        assert(self.vars@[a] == if a < i { s0[a] } else { s0[a + 1] });
                    }
                    lemma_map_of_push(self.vars@, (name, new_val));
                }
                let ghost s1 = self.vars@;
                self.vars.push((name, new_val));
                proof {
                    assert forall|a: int, b: int|
                        0 <= a < b < self.vars@.len() implies (#[trigger] self.vars@[a]).0@
                        != (#[trigger] self.vars@[b]).0@ by {
                        if b == self.vars@.len() - 1 {
                            assert(self.vars@[a] == s1[a]);
                        } else {
                            assert(self.vars@[a] == s1[a]);
                            assert(self.vars@[b] == s1[b]);
                        }
                    }
                    assert(map_of(s0).remove(s0[i as int].0@).insert(name@, new_val)
                        =~= map_of(s0).insert(name@, new_val));
                }
            },
            None => {
                proof {
                    lemma_map_of_push(self.vars@, (name, new_val));
                }
                let ghost s1 = self.vars@;
                self.vars.push((name, new_val));
                proof {
                    assert forall|a: int, b: int|
                        0 <= a < b < self.vars@.len() implies (#[trigger] self.vars@[a]).0@
                        != (#[trigger] self.vars@[b]).0@ by {
                        if b == self.vars@.len() - 1 {
                            assert(self.vars@[a] == s1[a]);
                        } else {
                            assert(self.vars@[a] == s1[a]);
                            assert(self.vars@[b] == s1[b]);
                        }
                    }
                }
            },
        }
        new_val
    }

    /// Pure lookup: the stored value for `name`, or absence if `name` was
    /// never assigned.
    pub fn val(&self, name: &str) -> (r: Option<i32>)
        requires
            self.wf(),
        ensures
            r == lookup(self@, name@),
    {
        match self.find_idx(name) {
            Some(i) => {
                proof {
                    lemma_map_of_at(self.vars@, i as int);
                }
                Some(self.vars[i].1)
            },
            None => {
                proof {
                    lemma_map_of_contains(self.vars@, name@);
                }
                None
            },
        }
    }
}

/// Law: after storing `n` under `v`, a lookup of `v` yields exactly `n`.
pub proof fn lemma_set_then_get(m: Map<Seq<char>, i32>, v: Seq<char>, n: i32)
    ensures
        lookup(m.insert(v, n), v) == Some(n),
{
}

/// Law: storing under one name does not disturb a lookup of another.
pub proof fn lemma_set_other_unchanged(m: Map<Seq<char>, i32>, v: Seq<char>, w: Seq<char>, n: i32)
    requires
        v != w,
    ensures
        lookup(m.insert(w, n), v) == lookup(m, v),
{
}

/// The store reached from the empty one by performing the assignments of
/// `ops` in order (each pair is a name and the value stored under it).
pub open spec fn store_after(ops: Seq<(Seq<char>, i32)>) -> Map<Seq<char>, i32>
    decreases ops.len(),
{
    if ops.len() == 0 {
        Map::empty()
    } else {
        store_after(ops.drop_last()).insert(ops.last().0, ops.last().1)
    }
}

/// Law: a name never assigned has no entry, whatever else was stored.
pub proof fn lemma_never_assigned_absent(ops: Seq<(Seq<char>, i32)>, v: Seq<char>)
    requires
        forall|i: int| 0 <= i < ops.len() ==> (#[trigger] ops[i]).0 != v,
    ensures
        lookup(store_after(ops), v) == None::<i32>,
    decreases ops.len(),
{
    if ops.len() > 0 {
        assert(forall|i: int|
            0 <= i < ops.drop_last().len() ==> (#[trigger] ops.drop_last()[i]).0 != v);
        lemma_never_assigned_absent(ops.drop_last(), v);
        assert(ops[ops.len() - 1].0 != v);
    }
}

} // verus!
