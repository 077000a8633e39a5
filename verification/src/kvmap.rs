//! A small string-keyed map with insertion order, backed by parallel
//! vectors. Rooms hold few participants, so linear lookups are fine; what
//! matters is that the contracts pin down exactly how every operation
//! changes the table.

use vstd::prelude::*;
use vstd::pervasive::VecAdditionalExecFns;

verus! {

/// An insertion-ordered map from strings to values.
pub struct KvMap<V> {
    pub keys: Vec<String>,
    pub vals: Vec<V>,
}

/// `n` is `o` with `v` stored under `k` and nothing else disturbed: other
/// keys keep their values, and a genuinely new key goes to the end of the
/// insertion order.
pub open spec fn map_set<V>(o: KvMap<V>, n: KvMap<V>, k: Seq<char>, v: V) -> bool {
    &&& n.wf()
    &&& n.spec_contains(k)
    &&& n.spec_get(k) == v
    &&& forall|k2: Seq<char>| k2 != k ==> n.spec_contains(k2) == o.spec_contains(k2)
    &&& forall|k2: Seq<char>|
        k2 != k && o.spec_contains(k2) ==> n.spec_get(k2) == o.spec_get(k2)
    &&& n.key_seq() == if o.spec_contains(k) {
        o.key_seq()
    } else {
        o.key_seq().push(k)
    }
    &&& n.spec_len() == if o.spec_contains(k) {
        o.spec_len()
    } else {
        o.spec_len() + 1
    }
}

impl<V> KvMap<V> {
    /// Well-formed: columns aligned and no key present twice.
    pub open spec fn wf(&self) -> bool {
        &&& self.keys@.len() == self.vals@.len()
        &&& forall|i: int, j: int|
            0 <= i < j < self.keys@.len() ==> self.keys@[i]@ != self.keys@[j]@
    }

    pub open spec fn spec_len(&self) -> nat {
        self.keys@.len()
    }

    /// The keys in insertion order.
    pub open spec fn key_seq(&self) -> Seq<Seq<char>> {
        self.keys@.map_values(|k: String| k@)
    }

    pub open spec fn spec_contains(&self, k: Seq<char>) -> bool {
        exists|i: int| 0 <= i < self.keys@.len() && self.keys@[i]@ == k
    }

    /// Where a present key sits; meaningful under `wf`.
    pub open spec fn spec_index(&self, k: Seq<char>) -> int {
        choose|i: int| 0 <= i < self.keys@.len() && self.keys@[i]@ == k
    }

    /// The value stored under a present key; meaningful under `wf`.
    pub open spec fn spec_get(&self, k: Seq<char>) -> V {
        self.vals@[self.spec_index(k)]
    }

    /// Under `wf` a present key has exactly one slot.
    pub proof fn lemma_index(&self, k: Seq<char>, i: int)
        requires
            self.wf(),
            0 <= i < self.keys@.len(),
            self.keys@[i]@ == k,
        ensures
            self.spec_contains(k),
            self.spec_index(k) == i,
            self.spec_get(k) == self.vals@[i],
    {
        assert(self.spec_contains(k));
        let j = self.spec_index(k);
        if i < j {
            assert(self.keys@[i]@ != self.keys@[j]@);
        }
        if j < i {
            assert(self.keys@[j]@ != self.keys@[i]@);
        }
    }

    pub fn new() -> (r: Self)
        ensures
            r.wf(),
            r.spec_len() == 0,
            r.key_seq() == Seq::<Seq<char>>::empty(),
            forall|k: Seq<char>| !r.spec_contains(k),
    {
        let r = KvMap { keys: Vec::new(), vals: Vec::new() };
        proof {
            assert(r.key_seq() =~= Seq::<Seq<char>>::empty());
        }
        r
    }

    pub fn len(&self) -> (n: usize)
        ensures
            n == self.spec_len(),
    {
        self.keys.len()
    }

    /// The slot a key occupies, if any.
    #[verifier::loop_isolation(false)]
    pub fn index_of(&self, k: &String) -> (r: Option<usize>)
        ensures
            match r {
                Some(i) => i < self.keys@.len() && self.keys@[i as int]@ == k@,
                None => !self.spec_contains(k@),
            },
    {
        let mut i: usize = 0;
        while i < self.keys.len()
            invariant
                i <= self.keys@.len(),
                forall|m: int| 0 <= m < i ==> self.keys@[m]@ != k@,
            decreases self.keys@.len() - i,
        {
            if self.keys[i] == *k {
                return Some(i);
            }
            i = i + 1;
        }
        None
    }

    pub fn contains_key(&self, k: &String) -> (r: bool)
        ensures
            r == self.spec_contains(k@),
    {
        match self.index_of(k) {
            Some(i) => {
                proof {
                    assert(self.spec_contains(k@));
                }
                true
            },
            None => false,
        }
    }

    pub fn get(&self, k: &String) -> (r: Option<&V>)
        requires
            self.wf(),
        ensures
            match r {
                Some(v) => self.spec_contains(k@) && *v == self.spec_get(k@),
                None => !self.spec_contains(k@),
            },
    {
        match self.index_of(k) {
            Some(i) => {
                proof {
                    self.lemma_index(k@, i as int);
                }
                Some(&self.vals[i])
            },
            None => None,
        }
    }

    /// Store `v` under `k`, replacing any earlier value.
    pub fn set(&mut self, k: String, v: V)
        requires
            old(self).wf(),
        ensures
            map_set(*old(self), *final(self), k@, v),
    {
        match self.index_of(&k) {
            Some(i) => {
                proof {
                    self.lemma_index(k@, i as int);
                }
                self.vals.set(i, v);
                proof {
                    assert(self.key_seq() =~= old(self).key_seq());
                    self.lemma_index(k@, i as int);
                    assert forall|k2: Seq<char>|
                        k2 != k@ && old(self).spec_contains(k2) implies self.spec_get(k2)
                        == old(self).spec_get(k2) by {
                        let j = old(self).spec_index(k2);
                        assert(0 <= j < old(self).keys@.len() && old(self).keys@[j]@ == k2);
                        self.lemma_index(k2, j);
                    }
                }
            },
            None => {
                self.keys.push(k);
                self.vals.push(v);
                proof {
                    let n = old(self).keys@.len() as int;
                    assert(self.keys@[n]@ == k@);
                    assert(self.wf());
                    self.lemma_index(k@, n);
                    assert(self.key_seq() =~= old(self).key_seq().push(k@));
                    assert forall|k2: Seq<char>| k2 != k@ implies self.spec_contains(k2)
                        == old(self).spec_contains(k2) by {
                        if old(self).spec_contains(k2) {
                            let j = old(self).spec_index(k2);
                            assert(self.keys@[j]@ == k2);
                        }
                        if self.spec_contains(k2) {
                            let j = self.spec_index(k2);
                            assert(0 <= j < self.keys@.len());
                            assert(j != n);
                            assert(old(self).keys@[j]@ == k2);
                        }
                    }
                    assert forall|k2: Seq<char>|
                        k2 != k@ && old(self).spec_contains(k2) implies self.spec_get(k2)
                        == old(self).spec_get(k2) by {
                        let j = old(self).spec_index(k2);
                        assert(0 <= j < old(self).keys@.len() && old(self).keys@[j]@ == k2);
                        self.lemma_index(k2, j);
                    }
                }
            },
        }
    }

    /// Drop `k` and its value; every other entry is untouched.
    pub fn remove_key(&mut self, k: &String)
        requires
            old(self).wf(),
        ensures
            final(self).wf(),
            !final(self).spec_contains(k@),
            forall|k2: Seq<char>|
                k2 != k@ ==> final(self).spec_contains(k2) == old(self).spec_contains(k2),
            forall|k2: Seq<char>|
                k2 != k@ && old(self).spec_contains(k2) ==> final(self).spec_get(k2) == old(
                    self,
                ).spec_get(k2),
            old(self).spec_contains(k@) ==> final(self).spec_len() == old(self).spec_len() - 1,
            !old(self).spec_contains(k@) ==> *final(self) == *old(self),
    {
        match self.index_of(k) {
            Some(i) => {
                proof {
                    self.lemma_index(k@, i as int);
                }
                self.keys.remove(i);
                self.vals.remove(i);
                proof {
                    let i = i as int;
                    let okeys = old(self).keys@;
                    assert forall|a: int, b: int|
                        0 <= a < b < self.keys@.len() implies self.keys@[a]@ != self.keys@[b]@ by {
                        let a0 = if a < i {
                            a
                        } else {
                            a + 1
                        };
                        let b0 = if b < i {
                            b
                        } else {
                            b + 1
                        };
                        assert(okeys[a0]@ != okeys[b0]@);
                    }
                    assert forall|j: int|
                        0 <= j < self.keys@.len() implies self.keys@[j]@ != k@ by {
                        let j0 = if j < i {
                            j
                        } else {
                            j + 1
                        };
                        assert(j0 != i);
                        if j0 < i {
                            assert(okeys[j0]@ != okeys[i]@);
                        } else {
                            assert(okeys[i]@ != okeys[j0]@);
                        }
                    }
                    assert forall|k2: Seq<char>| k2 != k@ implies self.spec_contains(k2)
                        == old(self).spec_contains(k2) by {
                        if old(self).spec_contains(k2) {
                            let j = old(self).spec_index(k2);
                            assert(okeys[j]@ == k2);
                            assert(j != i);
                            let jn = if j < i {
                                j
                            } else {
                                j - 1
                            };
                            assert(self.keys@[jn]@ == k2);
                        }
                        if self.spec_contains(k2) {
                            let j = self.spec_index(k2);
                            let j0 = if j < i {
                                j
                            } else {
                                j + 1
                            };
                            assert(okeys[j0]@ == k2);
                        }
                    }
                    assert forall|k2: Seq<char>|
                        k2 != k@ && old(self).spec_contains(k2) implies self.spec_get(k2)
                        == old(self).spec_get(k2) by {
                        let j = old(self).spec_index(k2);
                        assert(okeys[j]@ == k2);
                        old(self).lemma_index(k2, j);
                        assert(j != i);
                        let jn = if j < i {
                            j
                        } else {
                            j - 1
                        };
                        assert(self.keys@[jn]@ == k2);
                        self.lemma_index(k2, jn);
                        assert(self.vals@[jn] == old(self).vals@[j]);
                    }
                }
            },
            None => {},
        }
    }
}

} // verus!
