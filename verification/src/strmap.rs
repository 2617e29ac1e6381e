use vstd::prelude::*;

verus! {

/// A map keyed by strings, kept as a vector of entries with distinct keys in
/// insertion order. Its model is a `Map` from the key's characters to the value;
/// `key_seq`/`value_seq` give the entries in their (iteration) order.
#[derive(Debug)]
pub struct StrMap<V> {
    entries: Vec<(String, V)>,
}

/// The character sequences of a list of strings.
pub open spec fn string_views(v: Seq<String>) -> Seq<Seq<char>> {
    v.map_values(|s: String| s@)
}

/// Position of `k` among distinct keys.
pub open spec fn key_index(keys: Seq<Seq<char>>, k: Seq<char>) -> int {
    choose|i: int| 0 <= i < keys.len() && keys[i] == k
}

/// The map described by parallel key and value sequences with distinct keys.
pub open spec fn seq_map<V>(keys: Seq<Seq<char>>, vals: Seq<V>) -> Map<Seq<char>, V> {
    Map::new(|k: Seq<char>| keys.contains(k), |k: Seq<char>| vals[key_index(keys, k)])
}

/// The map of parallel sequences holds each key with its own value.
pub proof fn lemma_seq_map_at<V>(keys: Seq<Seq<char>>, vals: Seq<V>, i: int)
    requires
        keys.no_duplicates(),
        keys.len() == vals.len(),
        0 <= i < keys.len(),
    ensures
        seq_map(keys, vals).contains_key(keys[i]),
        seq_map(keys, vals)[keys[i]] == vals[i],
{
    assert(keys.contains(keys[i]));
    let j = key_index(keys, keys[i]);
    assert(0 <= j < keys.len() && keys[j] == keys[i]);
}

impl<V> StrMap<V> {
    /// Keys are distinct.
    pub closed spec fn wf(&self) -> bool {
        self.key_seq().no_duplicates()
    }

    /// Keys in entry order.
    pub closed spec fn key_seq(&self) -> Seq<Seq<char>> {
        self.entries@.map_values(|e: (String, V)| e.0@)
    }

    /// Values in entry order.
    pub closed spec fn value_seq(&self) -> Seq<V> {
        self.entries@.map_values(|e: (String, V)| e.1)
    }

    /// The map model.
    pub open spec fn model(&self) -> Map<Seq<char>, V> {
        seq_map(self.key_seq(), self.value_seq())
    }

    /// Facts about the model: keys are distinct, the i-th key maps to the i-th
    /// value, and the domain is the set of keys.
    pub proof fn lemma_model(&self)
        requires
            self.wf(),
        ensures
            self.key_seq().no_duplicates(),
            self.key_seq().len() == self.value_seq().len(),
            forall|i: int|
                0 <= i < self.key_seq().len() ==> #[trigger] self.model().contains_key(
                    self.key_seq()[i],
                ) && self.model()[self.key_seq()[i]] == self.value_seq()[i],
            forall|k: Seq<char>| #[trigger]
                self.model().contains_key(k) <==> self.key_seq().contains(k),
            self.model().dom() == self.key_seq().to_set(),
            self.model().dom().finite(),
            self.model().len() == self.key_seq().len(),
    {
        let ks = self.key_seq();
        let vs = self.value_seq();
        assert forall|i: int| 0 <= i < ks.len() implies #[trigger] self.model().contains_key(
            ks[i],
        ) && self.model()[ks[i]] == vs[i] by {
            lemma_seq_map_at(ks, vs, i);
        }
        assert(self.model().dom() =~= ks.to_set());
        ks.unique_seq_to_set();
    }

    /// An empty map.
    pub fn new() -> (res: Self)
        ensures
            res.wf(),
            res.key_seq() == Seq::<Seq<char>>::empty(),
            res.value_seq() == Seq::<V>::empty(),
            res.model() == Map::<Seq<char>, V>::empty(),
    {
        let res = StrMap { entries: Vec::new() };
        proof {
            assert(res.key_seq() =~= Seq::<Seq<char>>::empty());
            assert(res.value_seq() =~= Seq::<V>::empty());
            assert(res.model() =~= Map::<Seq<char>, V>::empty());
        }
        res
    }

    /// Number of entries.
    pub fn len(&self) -> (r: usize)
        requires
            self.wf(),
        ensures
            r == self.key_seq().len(),
            r == self.value_seq().len(),
            r == self.model().len(),
    {
        proof {
            self.lemma_model();
        }
        self.entries.len()
    }

    /// Key of the `i`-th entry.
    pub fn key_at(&self, i: usize) -> (r: &String)
        requires
            i < self.key_seq().len(),
        ensures
            r@ == self.key_seq()[i as int],
    {
        &self.entries[i].0
    }

    /// Value of the `i`-th entry.
    pub fn value_at(&self, i: usize) -> (r: &V)
        requires
            self.wf(),
            i < self.key_seq().len(),
        ensures
            *r == self.value_seq()[i as int],
    {
        proof {
            self.lemma_model();
        }
        &self.entries[i].1
    }

    /// Mutable access to the value of the `i`-th entry; keys stay as they are.
    pub fn value_at_mut(&mut self, i: usize) -> (r: &mut V)
        requires
            old(self).wf(),
            i < old(self).key_seq().len(),
        ensures
            *r == old(self).value_seq()[i as int],
            final(self).key_seq() == old(self).key_seq(),
            final(self).value_seq() == old(self).value_seq().update(i as int, *final(r)),
    {
        proof {
            self.lemma_model();
        }
        &mut self.entries[i].1
    }

    /// Maps with the same keys are both well formed or both not.
    pub proof fn lemma_same_keys_wf(a: &Self, b: &Self)
        requires
            a.wf(),
            a.key_seq() == b.key_seq(),
        ensures
            b.wf(),
    {
    }

    /// The keys, in entry order.
    pub fn keys(&self) -> (r: Vec<String>)
        requires
            self.wf(),
        ensures
            string_views(r@) == self.key_seq(),
    {
        let n = self.len();
        let mut r: Vec<String> = Vec::with_capacity(n);
        let mut i: usize = 0;
        while i < n
            invariant
                self.wf(),
                n == self.key_seq().len(),
                0 <= i <= n,
                r@.len() == i,
                string_views(r@) == self.key_seq().take(i as int),
            decreases n - i,
        {
            let k = self.key_at(i).clone();
            let ghost r0 = r@;
            r.push(k);
            proof {
                assert forall|j: int| 0 <= j < i + 1 implies #[trigger] string_views(r@)[j]
                    == self.key_seq().take(i + 1)[j] by {
                    if j < i {
                        assert(r@[j] == r0[j]);
                        assert(string_views(r0)[j] == self.key_seq().take(i as int)[j]);
                    }
                }
                assert(string_views(r@) =~= self.key_seq().take(i + 1));
            }
            i = i + 1;
        }
        proof {
            assert(self.key_seq().take(n as int) == self.key_seq());
        }
        r
    }

    /// Position of key `k`, if present.
    pub fn find(&self, k: &str) -> (r: Option<usize>)
        requires
            self.wf(),
        ensures
            match r {
                Some(i) => i < self.key_seq().len() && self.key_seq()[i as int] == k@,
                None => !self.model().contains_key(k@),
            },
    {
        proof {
            self.lemma_model();
        }
        let key = k.to_string();
        let mut i: usize = 0;
        while i < self.entries.len()
            invariant
                key@ == k@,
                0 <= i <= self.key_seq().len(),
                self.key_seq().len() == self.entries@.len(),
                forall|j: int| 0 <= j < i ==> self.key_seq()[j] != k@,
            decreases self.entries@.len() - i,
        {
            if self.entries[i].0 == key {
                return Some(i);
            }
            i = i + 1;
        }
        proof {
            if self.key_seq().contains(k@) {
                let j = choose|j: int| 0 <= j < self.key_seq().len() && self.key_seq()[j] == k@;
                assert(false);
            }
        }
        None
    }

    /// Whether key `k` is present.
    pub fn contains_key(&self, k: &str) -> (r: bool)
        requires
            self.wf(),
        ensures
            r == self.model().contains_key(k@),
    {
        proof {
            self.lemma_model();
        }
        match self.find(k) {
            Some(i) => {
                proof {
                    assert(self.key_seq().contains(k@));
                }
                true
            },
            None => false,
        }
    }

    /// The value under key `k`, if present.
    pub fn get(&self, k: &str) -> (r: Option<&V>)
        requires
            self.wf(),
        ensures
            match r {
                Some(v) => self.model().contains_key(k@) && *v == self.model()[k@],
                None => !self.model().contains_key(k@),
            },
    {
        proof {
            self.lemma_model();
        }
        match self.find(k) {
            Some(i) => {
                proof {
                    assert(self.key_seq()[i as int] == k@);
                }
                Some(self.value_at(i))
            },
            None => None,
        }
    }

    /// Sets the value under `k`: an existing entry keeps its position, a new
    /// one is appended.
    pub fn insert(&mut self, k: String, v: V)
        requires
            old(self).wf(),
        ensures
            final(self).wf(),
            final(self).model() == old(self).model().insert(k@, v),
            old(self).model().contains_key(k@) ==> final(self).key_seq() == old(self).key_seq(),
            !old(self).model().contains_key(k@) ==> final(self).key_seq() == old(
                self,
            ).key_seq().push(k@) && final(self).value_seq() == old(self).value_seq().push(v),
    {
        proof {
            self.lemma_model();
        }
        let ghost ks0 = self.key_seq();
        let ghost vs0 = self.value_seq();
        match self.find(k.as_str()) {
            Some(i) => {
                proof {
                    assert(self.entries@.update(i as int, (k, v)).map_values(
                        |e: (String, V)| e.0@,
                    ) =~= ks0);
                }
                self.entries.set(i, (k, v));
                proof {
                    let ks1 = self.key_seq();
                    let vs1 = self.value_seq();
                    assert(ks1 =~= ks0);
                    assert(vs1 =~= vs0.update(i as int, v));
                    self.lemma_model();
                    assert forall|q: Seq<char>| #[trigger] self.model().contains_key(q)
                        implies self.model()[q] == old(self).model().insert(k@, v)[q] by {
                        let j = choose|j: int| 0 <= j < ks1.len() && ks1[j] == q;
                        lemma_seq_map_at(ks1, vs1, j);
                        if j != i {
                            lemma_seq_map_at(ks0, vs0, j);
                        }
                    }
                    assert(self.model() =~= old(self).model().insert(k@, v));
                }
            },
            None => {
                proof {
                    assert(self.entries@.push((k, v)).map_values(|e: (String, V)| e.0@)
                        =~= ks0.push(k@));
                    assert(!ks0.contains(k@));
                    assert(ks0.push(k@).no_duplicates());
                }
                self.entries.push((k, v));
                proof {
                    let ks1 = self.key_seq();
                    let vs1 = self.value_seq();
                    assert(ks1 =~= ks0.push(k@));
                    assert(vs1 =~= vs0.push(v));
                    self.lemma_model();
                    assert forall|q: Seq<char>| #[trigger] self.model().contains_key(q)
                        implies self.model()[q] == old(self).model().insert(k@, v)[q] by {
                        let j = choose|j: int| 0 <= j < ks1.len() && ks1[j] == q;
                        lemma_seq_map_at(ks1, vs1, j);
                        if j < ks0.len() {
                            lemma_seq_map_at(ks0, vs0, j);
                        }
                    }
                    assert forall|q: Seq<char>| #[trigger] self.model().contains_key(q)
                        == old(self).model().insert(k@, v).contains_key(q) by {
                        if ks0.contains(q) {
                            let j = choose|j: int| 0 <= j < ks0.len() && ks0[j] == q;
                            assert(ks1[j] == q);
                        }
                        if q == k@ {
                            assert(ks1[ks0.len() as int] == q);
                        }
                    }
                    assert(self.model() =~= old(self).model().insert(k@, v));
                }
            },
        }
    }

    /// Removes the entry under `k`, if any, keeping the order of the others.
    pub fn remove(&mut self, k: &str)
        requires
            old(self).wf(),
        ensures
            final(self).wf(),
            final(self).model() == old(self).model().remove(k@),
    {
        proof {
            self.lemma_model();
        }
        let ghost ks0 = self.key_seq();
        let ghost vs0 = self.value_seq();
        match self.find(k) {
            Some(i) => {
                proof {
                    assert(self.entries@.remove(i as int).map_values(|e: (String, V)| e.0@)
                        =~= ks0.remove(i as int));
                    assert forall|a: int, b: int|
                        0 <= a < b < ks0.remove(i as int).len() implies ks0.remove(
                        i as int,
                    )[a] != ks0.remove(i as int)[b] by {
                        let a0 = if a < i { a } else { a + 1 };
                        let b0 = if b < i { b } else { b + 1 };
                        assert(ks0.remove(i as int)[a] == ks0[a0]);
                        assert(ks0.remove(i as int)[b] == ks0[b0]);
                    }
                }
                self.entries.remove(i);
                proof {
                    let ks1 = self.key_seq();
                    let vs1 = self.value_seq();
                    assert(ks1 =~= ks0.remove(i as int));
                    assert(vs1 =~= vs0.remove(i as int));
                    self.lemma_model();
                    assert forall|q: Seq<char>| #[trigger] self.model().contains_key(q)
                        == old(self).model().remove(k@).contains_key(q) by {
                        if ks1.contains(q) {
                            let j = choose|j: int| 0 <= j < ks1.len() && ks1[j] == q;
                            let j0 = if j < i { j } else { j + 1 };
                            assert(ks0[j0] == q);
                            assert(j0 != i);
                        }
                        if ks0.contains(q) && q != k@ {
                            let j = choose|j: int| 0 <= j < ks0.len() && ks0[j] == q;
                            let j1 = if j < i { j } else { j - 1 };
                            assert(ks1[j1] == q);
                        }
                    }
                    assert forall|q: Seq<char>| #[trigger] self.model().contains_key(q)
                        implies self.model()[q] == old(self).model().remove(k@)[q] by {
                        let j = choose|j: int| 0 <= j < ks1.len() && ks1[j] == q;
                        let j0 = if j < i { j } else { j + 1 };
                        lemma_seq_map_at(ks1, vs1, j);
                        lemma_seq_map_at(ks0, vs0, j0);
                    }
                    assert(self.model() =~= old(self).model().remove(k@));
                }
            },
            None => {
                proof {
                    assert(self.model() =~= old(self).model().remove(k@));
                }
            },
        }
    }
}

impl StrMap<String> {
    /// A copy with the same entries in the same order.
    pub fn duplicate(&self) -> (r: Self)
        requires
            self.wf(),
        ensures
            r.wf(),
            r.key_seq() == self.key_seq(),
            r.value_seq() == self.value_seq(),
    {
        let n = self.entries.len();
        let mut entries: Vec<(String, String)> = Vec::with_capacity(n);
        let mut i: usize = 0;
        while i < n
            invariant
                n == self.entries@.len(),
                0 <= i <= n,
                entries@ == self.entries@.take(i as int),
            decreases n - i,
        {
            let k = self.entries[i].0.clone();
            let v = self.entries[i].1.clone();
            entries.push((k, v));
            proof {
                assert(self.entries@.take(i + 1) == self.entries@.take(i as int).push(self.entries@[i as int]));
            }
            i = i + 1;
        }
        proof {
            assert(self.entries@.take(n as int) == self.entries@);
        }
        let r = StrMap { entries };
        proof {
            assert(r.key_seq() =~= self.key_seq());
            assert(r.value_seq() =~= self.value_seq());
        }
        r
    }
}

/// String equality on the characters.
pub fn str_eq(a: &str, b: &str) -> (r: bool)
    ensures
        r == (a@ == b@),
{
    let sa = a.to_string();
    let sb = b.to_string();
    sa == sb
}

} // verus!
