use crate::text::same_text;
use vstd::hash_map::StringHashMap;
use vstd::prelude::*;

verus! {

/// A map from strings to values that remembers the order in which its keys
/// were first inserted.
#[verifier::reject_recursive_types(V)]
pub struct Table<V> {
    map: StringHashMap<V>,
    order: Vec<String>,
}

impl<V> View for Table<V> {
    type V = Map<Seq<char>, V>;

    closed spec fn view(&self) -> Map<Seq<char>, V> {
        self.map@
    }
}

impl<V> Table<V> {
    /// The keys, in the order of their first insertion.
    pub closed spec fn keys(&self) -> Seq<Seq<char>> {
        Seq::new(self.order@.len(), |i: int| self.order@[i]@)
    }

    /// The keys are exactly the domain of the map, and none occurs twice.
    pub closed spec fn wf(&self) -> bool {
        &&& forall|k: Seq<char>| self.map@.contains_key(k) <==> self.keys().contains(k)
        &&& self.keys().no_duplicates()
    }

    /// What `wf` says, for callers.
    pub proof fn lemma_keys(&self)
        requires
            self.wf(),
        ensures
            forall|k: Seq<char>| self@.contains_key(k) <==> self.keys().contains(k),
            self.keys().no_duplicates(),
    {
    }

    pub fn new() -> (r: Self)
        ensures
            r.wf(),
            r@ == Map::<Seq<char>, V>::empty(),
            r.keys() == Seq::<Seq<char>>::empty(),
    {
        let r = Table { map: StringHashMap::new(), order: Vec::new() };
        assert(r.keys() =~= Seq::<Seq<char>>::empty());
        r
    }

    pub fn len(&self) -> (n: usize)
        ensures
            n == self.keys().len(),
    {
        self.order.len()
    }

    pub fn key_at(&self, i: usize) -> (k: &String)
        requires
            i < self.keys().len(),
        ensures
            k@ == self.keys()[i as int],
    {
        &self.order[i]
    }

    pub fn contains_key(&self, k: &str) -> (r: bool)
        ensures
            r == self@.contains_key(k@),
    {
        self.map.contains_key(k)
    }

    pub fn get(&self, k: &str) -> (r: Option<&V>)
        ensures
            match r {
                Some(v) => self@.contains_key(k@) && *v == self@[k@],
                None => !self@.contains_key(k@),
            },
    {
        self.map.get(k)
    }

    /// Binds `k` to `v`. A new key goes to the end of the order; a known key
    /// keeps its place.
    pub fn insert(&mut self, k: String, v: V)
        requires
            old(self).wf(),
        ensures
            final(self).wf(),
            final(self)@ == old(self)@.insert(k@, v),
            final(self).keys() == if old(self)@.contains_key(k@) {
                old(self).keys()
            } else {
                old(self).keys().push(k@)
            },
    {
        let ghost before = self.keys();
        if !self.map.contains_key(k.as_str()) {
            assert(!before.contains(k@));
            self.order.push(k.clone());
            assert(self.keys() =~= before.push(k@));
            assert(self.keys().no_duplicates()) by {
                assert forall|i: int, j: int|
                    0 <= i < self.keys().len() && 0 <= j < self.keys().len() && i != j implies self.keys()[i]
                    != self.keys()[j] by {
                    if i < before.len() {
                        assert(before.contains(before[i]));
                    }
                    if j < before.len() {
                        assert(before.contains(before[j]));
                    }
                }
            }
            assert forall|key: Seq<char>| self.keys().contains(key) <==> (before.contains(key) || key
                == k@) by {
                if before.contains(key) {
                    let i = choose|i: int| 0 <= i < before.len() && before[i] == key;
                    assert(self.keys()[i] == key);
                }
                if key == k@ {
                    assert(self.keys()[before.len() as int] == key);
                }
            }
        } else {
            assert(self.keys() =~= before);
            assert(before.contains(k@));
        }
        let ghost after = self.keys();
        assert(forall|key: Seq<char>| after.contains(key) <==> (before.contains(key) || key == k@));
        self.map.insert(k, v);
        assert(self.keys() == after);
        assert forall|key: Seq<char>| self.map@.contains_key(key) <==> self.keys().contains(key) by {
            assert(self.map@.contains_key(key) <==> (old(self).map@.contains_key(key) || key == k@));
            assert(old(self).map@.contains_key(key) <==> before.contains(key));
        }
    }

    /// Removes `k` and says whether it was bound.
    pub fn remove(&mut self, k: &str) -> (r: bool)
        requires
            old(self).wf(),
        ensures
            final(self).wf(),
            r == old(self)@.contains_key(k@),
            final(self)@ == old(self)@.remove(k@),
            r ==> old(self).keys().contains(k@) && final(self).keys() == old(self).keys().remove(
                old(self).keys().index_of(k@),
            ),
            !r ==> final(self).keys() == old(self).keys(),
    {
        let ghost before = self.keys();
        let mut i: usize = 0;
        while i < self.order.len()
            invariant
                i <= self.order.len(),
                self.keys() == before,
                *self == *old(self),
                self.wf(),
                forall|j: int| 0 <= j < i ==> before[j] != k@,
            decreases self.order.len() - i,
        {
            if same_text(self.order[i].as_str(), k) {
                assert(before[i as int] == k@);
                assert(before.contains(k@));
                let ghost at = before.index_of(k@);
                assert(0 <= at < before.len() && before[at] == k@);
                assert(at == i);
                self.order.remove(i);
                self.map.remove(k);
                assert(self.map@ == old(self).map@.remove(k@));
                assert(self.keys() =~= before.remove(i as int));
                assert(self.keys().no_duplicates()) by {
                    assert forall|a: int, b: int|
                        0 <= a < self.keys().len() && 0 <= b < self.keys().len() && a != b implies self.keys()[a]
                        != self.keys()[b] by {
                        let a2 = if a < i { a } else { a + 1 };
                        let b2 = if b < i { b } else { b + 1 };
                        assert(self.keys()[a] == before[a2]);
                        assert(self.keys()[b] == before[b2]);
                    }
                }
                assert forall|key: Seq<char>| self.keys().contains(key) <==> (before.contains(key)
                    && key != k@) by {
                    if self.keys().contains(key) {
                        let j = choose|j: int| 0 <= j < self.keys().len() && self.keys()[j] == key;
                        if j < i {
                            assert(before[j] == key);
                            assert(before.contains(key));
                        } else {
                            assert(before[j + 1] == key);
                            assert(before.contains(key));
                        }
                    }
                    if before.contains(key) && key != k@ {
                        let j = choose|j: int| 0 <= j < before.len() && before[j] == key;
                        assert(j != i);
                        if j < i {
                            assert(self.keys()[j] == key);
                        } else {
                            assert(self.keys()[j - 1] == key);
                        }
                    }
                }
                assert forall|key: Seq<char>| self.map@.contains_key(key) <==> self.keys().contains(
                    key,
                ) by {
                    assert(self.map@.contains_key(key) <==> (old(self).map@.contains_key(key) && key
                        != k@));
                    assert(old(self).map@.contains_key(key) <==> before.contains(key));
                }
                return true;
            }
            i += 1;
        }
        assert(!before.contains(k@));
        self.map.remove(k);
        assert(self.map@ =~= old(self).map@);
        false
    }

    /// Removes every binding.
    pub fn clear(&mut self)
        ensures
            final(self).wf(),
            final(self)@ == Map::<Seq<char>, V>::empty(),
            final(self).keys() == Seq::<Seq<char>>::empty(),
    {
        self.map.clear();
        self.order.clear();
        assert(self.keys() =~= Seq::<Seq<char>>::empty());
    }
}

} // verus!
