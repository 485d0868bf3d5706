use vstd::prelude::*;

verus! {

/// A map from strings to values, kept as a list of entries whose keys are
/// pairwise distinct.  It is the dictionary that the interpreter uses for
/// operator precedences, bound variables and modules.
#[derive(Debug)]
pub struct StrMap<V> {
    entries: Vec<(String, V)>,
}

impl<V> StrMap<V> {
    /// No two entries share a key.
    #[verifier::type_invariant]
    spec fn keys_distinct(self) -> bool {
        forall|i: int, j: int|
            0 <= i < j < self.entries@.len() ==> #[trigger] self.entries@[i].0@
                != #[trigger] self.entries@[j].0@
    }

    /// Whether some entry has key `k`.
    pub closed spec fn has(self, k: Seq<char>) -> bool {
        exists|i: int| 0 <= i < self.entries@.len() && #[trigger] self.entries@[i].0@ == k
    }

    /// The position of the entry with key `k`.
    spec fn idx(self, k: Seq<char>) -> int {
        choose|i: int| 0 <= i < self.entries@.len() && #[trigger] self.entries@[i].0@ == k
    }

    /// The map that the entries denote.
    pub closed spec fn as_map(self) -> Map<Seq<char>, V> {
        Map::new(|k: Seq<char>| self.has(k), |k: Seq<char>| self.entries@[self.idx(k)].1)
    }

    proof fn lemma_idx(self, i: int)
        requires
            self.keys_distinct(),
            0 <= i < self.entries@.len(),
        ensures
            self.has(self.entries@[i].0@),
            self.idx(self.entries@[i].0@) == i,
            self.as_map().contains_key(self.entries@[i].0@),
            self.as_map()[self.entries@[i].0@] == self.entries@[i].1,
    {
        let k = self.entries@[i].0@;
        assert(self.has(k));
        let j = self.idx(k);
        if j != i {
            if j < i {
                assert(self.entries@[j].0@ != self.entries@[i].0@);
            } else {
                assert(self.entries@[i].0@ != self.entries@[j].0@);
            }
        }
    }

    /// An empty map.
    pub fn new() -> (r: Self)
        ensures
            r@ == Map::<Seq<char>, V>::empty(),
    {
        let r = StrMap { entries: Vec::new() };
        assert(r.as_map() =~= Map::<Seq<char>, V>::empty());
        r
    }

    /// The position of the entry whose key equals `k`, if any.
    fn find(&self, k: &String) -> (r: Option<usize>)
        ensures
            match r {
                Some(i) => i < self.entries@.len() && self.entries@[i as int].0@ == k@,
                None => !self.has(k@),
            },
            r is Some <==> self@.contains_key(k@),
    {
        let mut i: usize = 0;
        while i < self.entries.len()
            invariant
                i <= self.entries@.len(),
                forall|j: int| 0 <= j < i ==> self.entries@[j].0@ != k@,
            decreases self.entries@.len() - i,
        {
            if self.entries[i].0 == *k {
                return Some(i);
            }
            i = i + 1;
        }
        None
    }

    /// Whether the map has key `k`.
    pub fn contains_key(&self, k: &String) -> (r: bool)
        ensures
            r == self@.contains_key(k@),
    {
        self.find(k).is_some()
    }

    /// The value under key `k`, if any.
    pub fn get(&self, k: &String) -> (r: Option<&V>)
        ensures
            match r {
                Some(v) => self@.contains_key(k@) && *v == self@[k@],
                None => !self@.contains_key(k@),
            },
    {
        proof {
            use_type_invariant(self);
        }
        match self.find(k) {
            Some(i) => {
                proof {
                    self.lemma_idx(i as int);
                }
                Some(&self.entries[i].1)
            },
            None => None,
        }
    }

    /// Binds `k` to `v`, replacing any earlier value under `k`.
    pub fn insert(&mut self, k: String, v: V)
        ensures
            final(self)@ == old(self)@.insert(k@, v),
    {
        proof {
            use_type_invariant(&*self);
        }
        let ghost old_self = *self;
        match self.find(&k) {
            Some(i) => {
                let mut entries = Vec::new();
                std::mem::swap(&mut entries, &mut self.entries);
                entries.set(i, (k, v));
                self.entries = entries;
                assert forall|a: int, b: int|
                    0 <= a < b < self.entries@.len() implies #[trigger] self.entries@[a].0@
                    != #[trigger] self.entries@[b].0@ by {
                    assert(old_self.entries@[a].0@ != old_self.entries@[b].0@);
                }
                assert forall|q: Seq<char>|
                    #![auto]
                    self.has(q) == old_self.as_map().insert(k@, v).contains_key(q) by {
                    if old_self.has(q) {
                        let j = old_self.idx(q);
                        assert(self.entries@[j].0@ == q);
                    }
                    if self.has(q) {
                        let j = self.idx(q);
                        assert(j != i ==> old_self.entries@[j].0@ == q);
                    }
                }
                assert forall|q: Seq<char>| #[trigger] self.has(q) implies self.as_map()[q]
                    == old_self.as_map().insert(k@, v)[q] by {
                    let j = self.idx(q);
                    self.lemma_idx(j);
                    if j != i {
                        old_self.lemma_idx(j);
                    }
                }
                assert(self.as_map() =~= old_self.as_map().insert(k@, v));
            },
            None => {
                let mut entries = Vec::new();
                std::mem::swap(&mut entries, &mut self.entries);
                entries.push((k, v));
                self.entries = entries;
                let ghost n: int = self.entries@.len() - 1;
                assert forall|q: Seq<char>|
                    #![auto]
                    self.has(q) == old_self.as_map().insert(k@, v).contains_key(q) by {
                    if q == k@ {
                        assert(self.entries@[n].0@ == q);
                    }
                    if old_self.has(q) {
                        let j = old_self.idx(q);
                        assert(self.entries@[j].0@ == q);
                    }
                    if self.has(q) {
                        let j = self.idx(q);
                        assert(j != n ==> old_self.entries@[j].0@ == q);
                    }
                }
                assert forall|q: Seq<char>| #[trigger] self.has(q) implies self.as_map()[q]
                    == old_self.as_map().insert(k@, v)[q] by {
                    let j = self.idx(q);
                    self.lemma_idx(j);
                    if j != n {
                        old_self.lemma_idx(j);
                    }
                }
                assert(self.as_map() =~= old_self.as_map().insert(k@, v));
            },
        }
    }

    /// Takes the entry with key `k` out of the map, giving back the stored key
    /// and its value.
    pub fn remove_entry(&mut self, k: &String) -> (r: Option<(String, V)>)
        ensures
            match r {
                Some(e) => old(self)@.contains_key(k@) && e.0@ == k@ && e.1 == old(self)@[k@]
                    && final(self)@ == old(self)@.remove(k@),
                None => !old(self)@.contains_key(k@) && final(self)@ == old(self)@,
            },
    {
        proof {
            use_type_invariant(&*self);
        }
        let ghost old_self = *self;
        match self.find(k) {
            Some(i) => {
                proof {
                    old_self.lemma_idx(i as int);
                }
                let mut entries = Vec::new();
                std::mem::swap(&mut entries, &mut self.entries);
                let e = entries.remove(i);
                self.entries = entries;
                assert forall|a: int, b: int|
                    0 <= a < b < self.entries@.len() implies #[trigger] self.entries@[a].0@
                    != #[trigger] self.entries@[b].0@ by {
                    let a2 = if a < i { a } else { a + 1 };
                    let b2 = if b < i { b } else { b + 1 };
                    assert(old_self.entries@[a2].0@ != old_self.entries@[b2].0@);
                }
                assert forall|q: Seq<char>|
                    #![auto]
                    self.has(q) == old_self.as_map().remove(k@).contains_key(q) by {
                    if old_self.has(q) && q != k@ {
                        let j = old_self.idx(q);
                        if j < i {
                            assert(self.entries@[j].0@ == q);
                        } else {
                            assert(j != i);
                            assert(self.entries@[j - 1].0@ == q);
                        }
                    }
                    if self.has(q) {
                        let j = self.idx(q);
                        let j2 = if j < i { j } else { j + 1 };
                        assert(old_self.entries@[j2].0@ == q);
                        assert(j2 != i ==> old_self.entries@[j2].0@ != old_self.entries@[i as int].0@);
                    }
                }
                assert forall|q: Seq<char>| #[trigger] self.has(q) implies self.as_map()[q]
                    == old_self.as_map().remove(k@)[q] by {
                    let j = self.idx(q);
                    self.lemma_idx(j);
                    let j2 = if j < i { j } else { j + 1 };
                    old_self.lemma_idx(j2);
                }
                assert(self.as_map() =~= old_self.as_map().remove(k@));
                Some(e)
            },
            None => None,
        }
    }

    /// Removes the entry with key `k`, giving back its value.
    pub fn remove(&mut self, k: &String) -> (r: Option<V>)
        ensures
            match r {
                Some(v) => old(self)@.contains_key(k@) && v == old(self)@[k@]
                    && final(self)@ == old(self)@.remove(k@),
                None => !old(self)@.contains_key(k@) && final(self)@ == old(self)@,
            },
    {
        match self.remove_entry(k) {
            Some(e) => Some(e.1),
            None => None,
        }
    }

    /// A map with the same keys whose values are what `f` makes of this
    /// map's values.
    pub fn copy_with<F: Fn(&V) -> V>(&self, f: F) -> (r: Self)
        requires
            forall|v: &V| #[trigger] f.requires((v,)),
        ensures
            r@.dom() == self@.dom(),
            forall|k: Seq<char>| #[trigger] self@.contains_key(k) ==> f.ensures((&self@[k],), r@[k]),
    {
        proof {
            use_type_invariant(self);
        }
        let mut entries: Vec<(String, V)> = Vec::new();
        let mut i: usize = 0;
        while i < self.entries.len()
            invariant
                self.keys_distinct(),
                forall|v: &V| #[trigger] f.requires((v,)),
                i <= self.entries@.len(),
                entries@.len() == i,
                forall|j: int| 0 <= j < i ==> #[trigger] entries@[j].0@ == self.entries@[j].0@,
                forall|j: int| 0 <= j < i ==> f.ensures((&self.entries@[j].1,), #[trigger] entries@[j].1),
            decreases self.entries@.len() - i,
        {
            let k = self.entries[i].0.clone();
            let v = f(&self.entries[i].1);
            entries.push((k, v));
            i = i + 1;
        }
        let r = StrMap { entries };
        assert forall|q: Seq<char>| #![auto] r.has(q) == self.has(q) by {
            if r.has(q) {
                let j = r.idx(q);
                assert(self.entries@[j].0@ == q);
            }
            if self.has(q) {
                let j = self.idx(q);
                assert(r.entries@[j].0@ == q);
            }
        }
        assert(r@.dom() =~= self@.dom());
        assert forall|k: Seq<char>| #[trigger] self@.contains_key(k) implies f.ensures(
            (&self@[k],),
            r@[k],
        ) by {
            let j = self.idx(k);
            self.lemma_idx(j);
            r.lemma_idx(j);
        }
        r
    }
}

impl<V> View for StrMap<V> {
    type V = Map<Seq<char>, V>;

    closed spec fn view(&self) -> Map<Seq<char>, V> {
        self.as_map()
    }
}

impl<V: DeepView> DeepView for StrMap<V> {
    type V = Map<Seq<char>, V::V>;

    open spec fn deep_view(&self) -> Map<Seq<char>, V::V> {
        self@.map_values(|v: V| v.deep_view())
    }
}

} // verus!
