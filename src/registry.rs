//! Registries keyed by integer id: a vector of entries kept in increasing
//! id order, seen as a map from id to value.
//!
//! The editor walks its registries in id order by position, inside loops
//! whose invariants speak of the entries already seen (the lowest pin hit,
//! the closest link, the geometry built so far). A vector whose order is an
//! invariant states that directly; std's `BTreeMap` would hand the same
//! walk out through a borrowing iterator whose order vstd states only for
//! keys whose comparison is known to obey `cmp_spec`.
use vstd::prelude::*;

verus! {

/// Entries with strictly increasing ids.
pub open spec fn sorted_ids<V>(s: Seq<(i32, V)>) -> bool {
    forall|i: int, j: int| 0 <= i < j < s.len() ==> s[i].0 < s[j].0
}

/// Some entry has id `k`.
pub open spec fn has_id<V>(s: Seq<(i32, V)>, k: i32) -> bool {
    exists|i: int| 0 <= i < s.len() && s[i].0 == k
}

/// The map from id to value that a list of entries stands for.
pub open spec fn entries_map<V>(s: Seq<(i32, V)>) -> Map<i32, V> {
    Map::new(|k: i32| has_id(s, k), |k: i32| s[choose|i: int| 0 <= i < s.len() && s[i].0 == k].1)
}

/// A map from id to value, iterated in increasing id order.
pub struct IdMap<V> {
    pub entries: Vec<(i32, V)>,
}

impl<V> View for IdMap<V> {
    type V = Map<i32, V>;

    open spec fn view(&self) -> Map<i32, V> {
        entries_map(self.entries@)
    }
}

/// Each entry of a sorted list is what the map holds for its id.
pub proof fn lemma_entry_in_map<V>(s: Seq<(i32, V)>, i: int)
    requires
        sorted_ids(s),
        0 <= i < s.len(),
    ensures
        entries_map(s).contains_key(s[i].0),
        entries_map(s)[s[i].0] == s[i].1,
{
    assert(has_id(s, s[i].0));
    let j = choose|j: int| 0 <= j < s.len() && s[j].0 == s[i].0;
    if j < i {
        assert(s[j].0 < s[i].0);
    } else if i < j {
        assert(s[i].0 < s[j].0);
    }
}

/// The map holds every id of the list and no other, each with the value of
/// its entry.
pub proof fn lemma_map_of_entries<V>(s: Seq<(i32, V)>)
    requires
        sorted_ids(s),
    ensures
        forall|k: i32| #[trigger] entries_map(s).contains_key(k) <==> has_id(s, k),
        forall|i: int|
            0 <= i < s.len() ==> #[trigger] entries_map(s)[s[i].0] == s[i].1 && entries_map(
                s,
            ).contains_key(s[i].0),
{
    assert forall|i: int| 0 <= i < s.len() implies #[trigger] entries_map(s)[s[i].0] == s[i].1
        && entries_map(s).contains_key(s[i].0) by {
        lemma_entry_in_map(s, i);
    }
}

impl<V: Copy> IdMap<V> {
    pub open spec fn wf(&self) -> bool {
        sorted_ids(self.entries@)
    }

    pub fn new() -> (r: Self)
        ensures
            r.wf(),
            r@ == Map::<i32, V>::empty(),
    {
        let r = IdMap { entries: Vec::new() };
        assert(r@ =~= Map::<i32, V>::empty());
        r
    }

    /// Number of entries.
    pub fn len(&self) -> (r: usize)
        ensures
            r == self.entries@.len(),
    {
        self.entries.len()
    }

    /// The entry at position `i` in increasing id order.
    pub fn entry(&self, i: usize) -> (r: (i32, V))
        requires
            i < self.entries@.len(),
        ensures
            r == self.entries@[i as int],
    {
        self.entries[i]
    }

    /// The ids, in increasing order.
    pub fn ids(&self) -> (r: Vec<i32>)
        requires
            self.wf(),
        ensures
            r@.len() == self.entries@.len(),
            forall|i: int| 0 <= i < r@.len() ==> r@[i] == self.entries@[i].0,
    {
        let mut out: Vec<i32> = Vec::new();
        let mut i: usize = 0;
        while i < self.entries.len()
            invariant
                i <= self.entries@.len(),
                out@.len() == i,
                forall|j: int| 0 <= j < i ==> out@[j] == self.entries@[j].0,
            decreases self.entries@.len() - i,
        {
            out.push(self.entries[i].0);
            i += 1;
        }
        out
    }

    /// Position of the first entry whose id is not below `k`.
    fn lower_bound(&self, k: i32) -> (r: usize)
        requires
            self.wf(),
        ensures
            r <= self.entries@.len(),
            forall|i: int| 0 <= i < r ==> self.entries@[i].0 < k,
            r < self.entries@.len() ==> self.entries@[r as int].0 >= k,
    {
        let mut i: usize = 0;
        while i < self.entries.len() && self.entries[i].0 < k
            invariant
                i <= self.entries@.len(),
                forall|j: int| 0 <= j < i ==> self.entries@[j].0 < k,
            decreases self.entries@.len() - i,
        {
            i += 1;
        }
        i
    }

    pub fn get(&self, k: i32) -> (r: Option<V>)
        requires
            self.wf(),
        ensures
            r == if self@.contains_key(k) {
                Some(self@[k])
            } else {
                None::<V>
            },
    {
        proof {
            lemma_map_of_entries(self.entries@);
        }
        let i = self.lower_bound(k);
        if i < self.entries.len() && self.entries[i].0 == k {
            Some(self.entries[i].1)
        } else {
            proof {
                if has_id(self.entries@, k) {
                    let j = choose|j: int| 0 <= j < self.entries@.len() && self.entries@[j].0 == k;
                    if j > i {
                        assert(self.entries@[i as int].0 < self.entries@[j].0);
                    }
                }
            }
            None
        }
    }

    pub fn contains(&self, k: i32) -> (r: bool)
        requires
            self.wf(),
        ensures
            r == self@.contains_key(k),
    {
        self.get(k).is_some()
    }

    /// Sets the value for `k`, adding the id or replacing its value.
    pub fn insert(&mut self, k: i32, v: V)
        requires
            old(self).wf(),
        ensures
            final(self).wf(),
            final(self)@ == old(self)@.insert(k, v),
    {
        let ghost s0 = self.entries@;
        proof {
            lemma_map_of_entries(s0);
        }
        let i = self.lower_bound(k);
        if i < self.entries.len() && self.entries[i].0 == k {
            self.entries.set(i, (k, v));
            let ghost s1 = self.entries@;
            assert(s1 == s0.update(i as int, (k, v)));
            assert(sorted_ids(s1)) by {
                assert forall|a: int, b: int| 0 <= a < b < s1.len() implies s1[a].0 < s1[b].0 by {
                    assert(s0[a].0 < s0[b].0);
                }
            }
            proof {
                lemma_map_of_entries(s1);
                assert forall|x: i32| #[trigger] has_id(s1, x) <==> has_id(s0, x) || x == k by {
                    if has_id(s0, x) {
                        let j = choose|j: int| 0 <= j < s0.len() && s0[j].0 == x;
                        assert(s1[j].0 == x);
                    }
                    if has_id(s1, x) {
                        let j = choose|j: int| 0 <= j < s1.len() && s1[j].0 == x;
                        assert(s0[j].0 == x);
                    }
                    if x == k {
                        assert(s1[i as int].0 == x);
                    }
                }
                assert forall|x: i32| #[trigger] self@.contains_key(x) && x != k implies self@[x]
                    == old(self)@[x] by {
                    let j = choose|j: int| 0 <= j < s1.len() && s1[j].0 == x;
                    assert(s1[j] == s0[j]);
                }
                assert(s1[i as int].0 == k);
                assert(self@ =~= old(self)@.insert(k, v));
            }
        } else {
            self.entries.insert(i, (k, v));
            let ghost s1 = self.entries@;
            assert(s1 == s0.insert(i as int, (k, v)));
            assert(sorted_ids(s1)) by {
                assert forall|a: int, b: int| 0 <= a < b < s1.len() implies s1[a].0 < s1[b].0 by {
                    if b < i {
                        assert(s0[a].0 < s0[b].0);
                    } else if a > i {
                        assert(s0[a - 1].0 < s0[b - 1].0);
                    } else if a == i {
                        assert(s0[b - 1].0 >= s0[i as int].0);
                    } else {
                        assert(s1[a].0 < k);
                    }
                }
            }
            proof {
                lemma_map_of_entries(s1);
                assert forall|x: i32| #[trigger] has_id(s1, x) <==> has_id(s0, x) || x == k by {
                    if has_id(s0, x) {
                        let j = choose|j: int| 0 <= j < s0.len() && s0[j].0 == x;
                        if j < i {
                            assert(s1[j].0 == x);
                        } else {
                            assert(s1[j + 1].0 == x);
                        }
                    }
                    if has_id(s1, x) {
                        let j = choose|j: int| 0 <= j < s1.len() && s1[j].0 == x;
                        if j < i {
                            assert(s0[j].0 == x);
                        } else if j > i {
                            assert(s0[j - 1].0 == x);
                        }
                    }
                    if x == k {
                        assert(s1[i as int].0 == x);
                    }
                }
                assert forall|x: i32| #[trigger] self@.contains_key(x) && x != k implies self@[x]
                    == old(self)@[x] by {
                    let j = choose|j: int| 0 <= j < s1.len() && s1[j].0 == x;
                    if j < i {
                        assert(s1[j] == s0[j]);
                    } else {
                        assert(s1[j] == s0[j - 1]);
                    }
                }
                assert(s1[i as int].0 == k);
                assert(self@ =~= old(self)@.insert(k, v));
            }
        }
    }

    /// Removes `k` if present.
    pub fn remove(&mut self, k: i32)
        requires
            old(self).wf(),
        ensures
            final(self).wf(),
            final(self)@ == old(self)@.remove(k),
    {
        let ghost s0 = self.entries@;
        proof {
            lemma_map_of_entries(s0);
        }
        let i = self.lower_bound(k);
        if i < self.entries.len() && self.entries[i].0 == k {
            self.entries.remove(i);
            let ghost s1 = self.entries@;
            assert(s1 == s0.remove(i as int));
            assert(sorted_ids(s1)) by {
                assert forall|a: int, b: int| 0 <= a < b < s1.len() implies s1[a].0 < s1[b].0 by {
                    if b < i {
                        assert(s0[a].0 < s0[b].0);
                    } else if a >= i {
                        assert(s0[a + 1].0 < s0[b + 1].0);
                    } else {
                        assert(s0[a].0 < s0[b + 1].0);
                    }
                }
            }
            proof {
                lemma_map_of_entries(s1);
                assert forall|x: i32| #[trigger] has_id(s1, x) <==> has_id(s0, x) && x != k by {
                    if has_id(s0, x) && x != k {
                        let j = choose|j: int| 0 <= j < s0.len() && s0[j].0 == x;
                        if j < i {
                            assert(s1[j].0 == x);
                        } else {
                            assert(s1[j - 1].0 == x);
                        }
                    }
                    if has_id(s1, x) {
                        let j = choose|j: int| 0 <= j < s1.len() && s1[j].0 == x;
                        if j < i {
                            assert(s0[j].0 == x);
                            assert(s0[j].0 < s0[i as int].0);
                        } else {
                            assert(s0[j + 1].0 == x);
                            assert(s0[i as int].0 < s0[j + 1].0);
                        }
                    }
                }
                assert forall|x: i32| #[trigger] self@.contains_key(x) implies self@[x] == old(
                    self,
                )@[x] by {
                    let j = choose|j: int| 0 <= j < s1.len() && s1[j].0 == x;
                    if j < i {
                        assert(s1[j] == s0[j]);
                    } else {
                        assert(s1[j] == s0[j + 1]);
                    }
                }
                assert(self@ =~= old(self)@.remove(k));
            }
        } else {
            proof {
                if has_id(s0, k) {
                    let j = choose|j: int| 0 <= j < s0.len() && s0[j].0 == k;
                    if j > i {
                        assert(s0[i as int].0 < s0[j].0);
                    }
                }
                assert(old(self)@.remove(k) =~= old(self)@);
            }
        }
    }

    /// Removes every entry.
    pub fn clear(&mut self)
        ensures
            final(self).wf(),
            final(self)@ == Map::<i32, V>::empty(),
    {
        self.entries.clear();
        assert(self@ =~= Map::<i32, V>::empty());
    }
}

} // verus!
