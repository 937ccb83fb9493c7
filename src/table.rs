//! A table keyed by strings: rows with distinct keys, seen as a map.
use vstd::prelude::*;

verus! {

/// Rows of `(key, value)` with distinct keys, in insertion order.
pub struct Table<V> {
    rows: Vec<(String, V)>,
}

impl<V: View> View for Table<V> {
    type V = Map<Seq<char>, V::V>;

    closed spec fn view(&self) -> Map<Seq<char>, V::V> {
        Map::new(|k: Seq<char>| self.has(k), |k: Seq<char>| self.value_at(k)@)
    }
}

impl<V: View> Table<V> {
    /// The rows, in order.
    pub closed spec fn rows_spec(&self) -> Seq<(String, V)> {
        self.rows@
    }

    /// Whether some row has key `k`.
    pub closed spec fn has(&self, k: Seq<char>) -> bool {
        exists|i: int| 0 <= i < self.rows@.len() && #[trigger] self.rows@[i].0@ == k
    }

    /// The value stored under `k`.
    pub closed spec fn value_at(&self, k: Seq<char>) -> V {
        let i = choose|i: int| 0 <= i < self.rows@.len() && #[trigger] self.rows@[i].0@ == k;
        self.rows@[i].1
    }

    /// The keys are distinct.
    pub closed spec fn wf(&self) -> bool {
        forall|i: int, j: int|
            0 <= i < j < self.rows@.len() ==> #[trigger] self.rows@[i].0@ != #[trigger] self.rows@[j].0@
    }

    proof fn lemma_view(&self, k: Seq<char>)
        ensures
            self@.contains_key(k) == self.has(k),
            self.has(k) ==> self@[k] == self.value_at(k)@,
    {
    }

    proof fn lemma_at(&self, i: int)
        requires
            self.wf(),
            0 <= i < self.rows@.len(),
        ensures
            self.has(self.rows@[i].0@),
            self.value_at(self.rows@[i].0@) == self.rows@[i].1,
    {
        let k = self.rows@[i].0@;
        assert(self.rows@[i].0@ == k);
        let j = choose|j: int| 0 <= j < self.rows@.len() && #[trigger] self.rows@[j].0@ == k;
        if i < j {
            assert(self.rows@[i].0@ != self.rows@[j].0@);
        } else if j < i {
            assert(self.rows@[j].0@ != self.rows@[i].0@);
        }
    }

    /// What the rows say of the map: each row is an entry, each key has a row,
    /// and the view agrees with the stored values.
    pub proof fn lemma_rows(&self)
        requires
            self.wf(),
        ensures
            forall|i: int|
                0 <= i < self.rows_spec().len() ==> {
                    &&& self@.contains_key(#[trigger] self.rows_spec()[i].0@)
                    &&& self.value_at(self.rows_spec()[i].0@) == self.rows_spec()[i].1
                    &&& self@[self.rows_spec()[i].0@] == self.rows_spec()[i].1@
                },
            forall|k: Seq<char>|
                #[trigger] self@.contains_key(k) ==> exists|i: int|
                    0 <= i < self.rows_spec().len() && #[trigger] self.rows_spec()[i].0@ == k,
            forall|k: Seq<char>| #[trigger] self@.contains_key(k) ==> self@[k] == self.value_at(k)@,
            forall|i: int, j: int|
                0 <= i < j < self.rows_spec().len() ==> #[trigger] self.rows_spec()[i].0@
                    != #[trigger] self.rows_spec()[j].0@,
    {
        assert forall|i: int| 0 <= i < self.rows_spec().len() implies {
            &&& self@.contains_key(#[trigger] self.rows_spec()[i].0@)
            &&& self.value_at(self.rows_spec()[i].0@) == self.rows_spec()[i].1
            &&& self@[self.rows_spec()[i].0@] == self.rows_spec()[i].1@
        } by {
            self.lemma_at(i);
            self.lemma_view(self.rows_spec()[i].0@);
        }
        assert forall|k: Seq<char>| #[trigger] self@.contains_key(k) implies exists|i: int|
            0 <= i < self.rows_spec().len() && #[trigger] self.rows_spec()[i].0@ == k by {
            self.lemma_view(k);
            let j = choose|j: int| 0 <= j < self.rows@.len() && #[trigger] self.rows@[j].0@ == k;
            assert(self.rows_spec()[j].0@ == k);
        }
        assert forall|k: Seq<char>| #[trigger] self@.contains_key(k) implies self@[k] == self.value_at(k)@ by {
            self.lemma_view(k);
        }
    }

    /// An empty table.
    pub fn new() -> (r: Self)
        ensures
            r.wf(),
            r@ == Map::<Seq<char>, V::V>::empty(),
            r.rows_spec().len() == 0,
    {
        let r = Table { rows: Vec::new() };
        assert(r@ =~= Map::<Seq<char>, V::V>::empty());
        r
    }

    /// The number of rows.
    pub fn len(&self) -> (r: usize)
        ensures
            r == self.rows_spec().len(),
    {
        self.rows.len()
    }

    /// The rows, in insertion order.
    pub fn rows(&self) -> (r: &Vec<(String, V)>)
        ensures
            r@ == self.rows_spec(),
    {
        &self.rows
    }

    fn find(&self, key: &String) -> (r: Option<usize>)
        requires
            self.wf(),
        ensures
            r is None ==> !self.has(key@),
            r matches Some(i) ==> i < self.rows@.len() && self.rows@[i as int].0@ == key@,
    {
        let mut i: usize = 0;
        while i < self.rows.len()
            invariant
                i <= self.rows@.len(),
                forall|j: int| 0 <= j < i ==> #[trigger] self.rows@[j].0@ != key@,
            decreases self.rows@.len() - i,
        {
            if self.rows[i].0 == *key {
                return Some(i);
            }
            i += 1;
        }
        None
    }

    /// The value stored under `key`, if any.
    pub fn get(&self, key: &String) -> (r: Option<&V>)
        requires
            self.wf(),
        ensures
            r is Some <==> self@.contains_key(key@),
            r matches Some(v) ==> *v == self.value_at(key@) && v@ == self@[key@],
    {
        match self.find(key) {
            Some(i) => {
                proof {
                    self.lemma_at(i as int);
                }
                Some(&self.rows[i].1)
            },
            None => None,
        }
    }

    /// Whether a row has key `key`.
    pub fn contains_key(&self, key: &String) -> (r: bool)
        requires
            self.wf(),
        ensures
            r == self@.contains_key(key@),
    {
        self.find(key).is_some()
    }

    /// Stores `value` under `key`, in place of any earlier value.
    pub fn insert(&mut self, key: String, value: V)
        requires
            old(self).wf(),
        ensures
            final(self).wf(),
            final(self)@ == old(self)@.insert(key@, value@),
            final(self).value_at(key@) == value,
            forall|k: Seq<char>|
                k != key@ && old(self)@.contains_key(k) ==> #[trigger] final(self).value_at(k)
                    == old(self).value_at(k),
    {
        let ghost kv = key@;
        match self.find(&key) {
            Some(i) => {
                self.rows.set(i, (key, value));
                proof {
                    assert(self.wf()) by {
                        assert forall|a: int, b: int|
                            0 <= a < b < self.rows@.len() implies #[trigger] self.rows@[a].0@
                            != #[trigger] self.rows@[b].0@ by {
                            assert(old(self).rows@[a].0@ != old(self).rows@[b].0@);
                        }
                    }
                    self.lemma_at(i as int);
                    assert forall|k: Seq<char>|
                        k != kv && old(self)@.contains_key(k) implies #[trigger] self.value_at(k)
                        == old(self).value_at(k) && self.has(k) by {
                        let j = choose|j: int|
                            0 <= j < old(self).rows@.len() && #[trigger] old(self).rows@[j].0@ == k;
                        old(self).lemma_at(j);
                        assert(self.rows@[j] == old(self).rows@[j]);
                        self.lemma_at(j);
                    }
                    assert forall|k: Seq<char>| self.has(k) implies old(self).has(k) || k == kv by {
                        let j = choose|j: int|
                            0 <= j < self.rows@.len() && #[trigger] self.rows@[j].0@ == k;
                        if j != i {
                            assert(old(self).rows@[j] == self.rows@[j]);
                        }
                    }
                    assert forall|k: Seq<char>| #![trigger self@.dom().contains(k)] #![trigger self@[k]] true implies (self@.contains_key(k) == old(self)@.insert(kv, value@).contains_key(k)) && (self@.contains_key(k) ==> self@[k] == old(self)@.insert(kv, value@)[k]) by {
                        self.lemma_view(k);
                        old(self).lemma_view(k);
                        if k != kv {
                            if old(self).has(k) {
                                assert(old(self)@.contains_key(k));
                                assert(self.value_at(k) == old(self).value_at(k));
                            }
                            if self.has(k) {
                                assert(old(self).has(k));
                            }
                        }
                    }
                    assert(self@ =~= old(self)@.insert(kv, value@));
                }
            },
            None => {
                self.rows.push((key, value));
                proof {
                    let n = old(self).rows@.len() as int;
                    assert(self.wf()) by {
                        assert forall|a: int, b: int|
                            0 <= a < b < self.rows@.len() implies #[trigger] self.rows@[a].0@
                            != #[trigger] self.rows@[b].0@ by {
                            if b == n {
                                assert(old(self).rows@[a].0@ != kv);
                            } else {
                                assert(old(self).rows@[a].0@ != old(self).rows@[b].0@);
                            }
                        }
                    }
                    self.lemma_at(n);
                    assert forall|k: Seq<char>|
                        k != kv && old(self)@.contains_key(k) implies #[trigger] self.value_at(k)
                        == old(self).value_at(k) && self.has(k) by {
                        let j = choose|j: int|
                            0 <= j < old(self).rows@.len() && #[trigger] old(self).rows@[j].0@ == k;
                        old(self).lemma_at(j);
                        assert(self.rows@[j] == old(self).rows@[j]);
                        self.lemma_at(j);
                    }
                    assert forall|k: Seq<char>| self.has(k) implies old(self).has(k) || k == kv by {
                        let j = choose|j: int|
                            0 <= j < self.rows@.len() && #[trigger] self.rows@[j].0@ == k;
                        if j != n {
                            assert(old(self).rows@[j] == self.rows@[j]);
                        }
                    }
                    assert forall|k: Seq<char>| #![trigger self@.dom().contains(k)] #![trigger self@[k]] true implies (self@.contains_key(k) == old(self)@.insert(kv, value@).contains_key(k)) && (self@.contains_key(k) ==> self@[k] == old(self)@.insert(kv, value@)[k]) by {
                        self.lemma_view(k);
                        old(self).lemma_view(k);
                        if k != kv {
                            if old(self).has(k) {
                                assert(old(self)@.contains_key(k));
                                assert(self.value_at(k) == old(self).value_at(k));
                            }
                            if self.has(k) {
                                assert(old(self).has(k));
                            }
                        }
                    }
                    assert(self@ =~= old(self)@.insert(kv, value@));
                }
            },
        }
    }

    /// Removes the row with key `key` and returns its value, if there was one.
    pub fn remove(&mut self, key: &String) -> (r: Option<V>)
        requires
            old(self).wf(),
        ensures
            final(self).wf(),
            final(self)@ == old(self)@.remove(key@),
            r is Some <==> old(self)@.contains_key(key@),
            r matches Some(v) ==> v == old(self).value_at(key@),
            forall|k: Seq<char>|
                k != key@ && old(self)@.contains_key(k) ==> #[trigger] final(self).value_at(k)
                    == old(self).value_at(k),
    {
        match self.find(key) {
            Some(i) => {
                proof {
                    self.lemma_at(i as int);
                }
                let row = self.rows.remove(i);
                proof {
                    let o = old(self).rows@;
                    assert forall|j: int| 0 <= j < self.rows@.len() implies #[trigger] self.rows@[j]
                        == (if j < i { o[j] } else { o[j + 1] }) by {}
                    assert(self.wf()) by {
                        assert forall|a: int, b: int|
                            0 <= a < b < self.rows@.len() implies #[trigger] self.rows@[a].0@
                            != #[trigger] self.rows@[b].0@ by {
                            let oa = if a < i { a } else { a + 1 };
                            let ob = if b < i { b } else { b + 1 };
                            assert(o[oa].0@ != o[ob].0@);
                        }
                    }
                    assert forall|k: Seq<char>|
                        k != key@ && old(self)@.contains_key(k) implies #[trigger] self.value_at(k)
                        == old(self).value_at(k) && self.has(k) by {
                        let j = choose|j: int| 0 <= j < o.len() && #[trigger] o[j].0@ == k;
                        old(self).lemma_at(j);
                        assert(j != i);
                        let nj = if j < i { j } else { j - 1 };
                        assert(self.rows@[nj] == o[j]);
                        self.lemma_at(nj);
                    }
                    assert forall|k: Seq<char>| self.has(k) implies old(self).has(k) && k != key@ by {
                        let j = choose|j: int|
                            0 <= j < self.rows@.len() && #[trigger] self.rows@[j].0@ == k;
                        let oj = if j < i { j } else { j + 1 };
                        assert(o[oj] == self.rows@[j]);
                        if oj < i {
                            assert(o[oj].0@ != o[i as int].0@);
                        } else {
                            assert(o[i as int].0@ != o[oj].0@);
                        }
                    }
                    assert forall|k: Seq<char>| #![trigger self@.dom().contains(k)] #![trigger self@[k]] true implies (self@.contains_key(k) == old(self)@.remove(key@).contains_key(k)) && (self@.contains_key(k) ==> self@[k] == old(self)@.remove(key@)[k]) by {
                        self.lemma_view(k);
                        old(self).lemma_view(k);
                        if k != key@ {
                            if old(self).has(k) {
                                assert(old(self)@.contains_key(k));
                                assert(self.value_at(k) == old(self).value_at(k));
                            }
                        }
                        if self.has(k) {
                            assert(old(self).has(k) && k != key@);
                        }
                    }
                    assert(self@ =~= old(self)@.remove(key@));
                }
                Some(row.1)
            },
            None => {
                proof {
                    assert forall|k: Seq<char>| #![trigger self@.dom().contains(k)] #![trigger self@[k]] true implies (self@.contains_key(k) == old(self)@.remove(key@).contains_key(k)) && (self@.contains_key(k) ==> self@[k] == old(self)@.remove(key@)[k]) by {
                        self.lemma_view(k);
                        old(self).lemma_view(k);
                        if k != key@ {
                            if old(self).has(k) {
                                assert(old(self)@.contains_key(k));
                                assert(self.value_at(k) == old(self).value_at(k));
                            }
                        }
                        if self.has(k) {
                            assert(old(self).has(k) && k != key@);
                        }
                    }
                    assert(self@ =~= old(self)@.remove(key@));
                }
                None
            },
        }
    }

    /// The keys, in insertion order.
    pub fn keys(&self) -> (r: Vec<String>)
        requires
            self.wf(),
        ensures
            r@.len() == self.rows_spec().len(),
            forall|i: int| 0 <= i < r@.len() ==> #[trigger] r@[i]@ == self.rows_spec()[i].0@,
    {
        let mut out: Vec<String> = Vec::new();
        let mut i: usize = 0;
        while i < self.rows.len()
            invariant
                i <= self.rows@.len(),
                out@.len() == i,
                forall|j: int| 0 <= j < i ==> #[trigger] out@[j]@ == self.rows@[j].0@,
            decreases self.rows@.len() - i,
        {
            out.push(self.rows[i].0.clone());
            i += 1;
        }
        out
    }
}

} // verus!
