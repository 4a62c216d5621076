use vstd::prelude::*;

verus! {

/// A small map keyed by text, held as a list of distinct keys. vstd's
/// specification of `HashMap` holds only for key types it knows to hash
/// consistently (`obeys_key_model`), which it grants to integers and not to
/// `String`, so a `HashMap<String, _>` would let nothing be proved of lookups.
pub struct StringMap<V> {
    slots: Vec<(String, V)>,
}

impl<V> StringMap<V> {
    /// Each key is held at most once.
    pub closed spec fn wf(&self) -> bool {
        forall|i: int, j: int|
            0 <= i < j < self.slots@.len() ==> (#[trigger] self.slots@[i]).0@
                != (#[trigger] self.slots@[j]).0@
    }

    spec fn has_key_at(&self, key: Seq<char>, i: int) -> bool {
        0 <= i < self.slots@.len() && self.slots@[i].0@ == key
    }

    pub closed spec fn view(&self) -> Map<Seq<char>, V> {
        Map::new(
            |k: Seq<char>| exists|i: int| self.has_key_at(k, i),
            |k: Seq<char>| self.slots@[choose|i: int| self.has_key_at(k, i)].1,
        )
    }

    proof fn lemma_view_at(&self, i: int)
        requires
            self.wf(),
            0 <= i < self.slots@.len(),
        ensures
            self@.contains_key(self.slots@[i].0@),
            self@[self.slots@[i].0@] == self.slots@[i].1,
    {
        let k = self.slots@[i].0@;
        assert(self.has_key_at(k, i));
        let j = choose|j: int| self.has_key_at(k, j);
        if j != i {
            if i < j {
                assert(self.slots@[i].0@ != self.slots@[j].0@);
            } else {
                assert(self.slots@[j].0@ != self.slots@[i].0@);
            }
        }
    }

    /// Every key of the view sits at some slot, and every slot is in the view.
    proof fn lemma_view_keys(&self, k: Seq<char>)
        requires
            self.wf(),
        ensures
            self@.contains_key(k) <==> exists|i: int| self.has_key_at(k, i),
            self@.contains_key(k) ==> exists|i: int|
                self.has_key_at(k, i) && self@[k] == self.slots@[i].1,
    {
        if exists|i: int| self.has_key_at(k, i) {
            let i = choose|i: int| self.has_key_at(k, i);
            self.lemma_view_at(i);
        }
    }

    /// The keys, in the order in which they were first stored.
    pub closed spec fn keys(&self) -> Seq<Seq<char>> {
        self.slots@.map_values(|s: (String, V)| s.0@)
    }

    /// The keys are distinct and are exactly those of the view.
    pub proof fn lemma_keys(&self)
        requires
            self.wf(),
        ensures
            forall|i: int, j: int|
                0 <= i < j < self.keys().len() ==> self.keys()[i] != self.keys()[j],
            forall|i: int| 0 <= i < self.keys().len() ==> self@.contains_key(#[trigger] self.keys()[i]),
            forall|k: Seq<char>|
                #[trigger] self@.contains_key(k) ==> exists|i: int|
                    0 <= i < self.keys().len() && self.keys()[i] == k,
    {
        assert forall|i: int| 0 <= i < self.keys().len() implies self@.contains_key(
            #[trigger] self.keys()[i],
        ) by {
            self.lemma_view_at(i);
        }
        assert forall|k: Seq<char>| #[trigger] self@.contains_key(k) implies exists|i: int|
            0 <= i < self.keys().len() && self.keys()[i] == k by {
            self.lemma_view_keys(k);
            let i = choose|i: int| self.has_key_at(k, i);
            assert(self.keys()[i] == k);
        }
    }

    pub fn len(&self) -> (r: usize)
        ensures
            r == self.keys().len(),
    {
        self.slots.len()
    }

    /// The entry stored `i`-th.
    pub fn entry_at(&self, i: usize) -> (r: (&String, &V))
        requires
            self.wf(),
            i < self.keys().len(),
        ensures
            r.0@ == self.keys()[i as int],
            self@.contains_key(r.0@),
            *r.1 == self@[r.0@],
    {
        proof {
            self.lemma_view_at(i as int);
        }
        let slot = &self.slots[i];
        (&slot.0, &slot.1)
    }

    pub fn new() -> (r: StringMap<V>)
        ensures
            r.wf(),
            r@ == Map::<Seq<char>, V>::empty(),
    {
        let r = StringMap { slots: Vec::new() };
        assert(r@ =~= Map::<Seq<char>, V>::empty());
        r
    }

    fn position(&self, key: &str) -> (r: Option<usize>)
        requires
            self.wf(),
        ensures
            match r {
                Some(i) => self.has_key_at(key@, i as int) && self@.contains_key(key@)
                    && self@[key@] == self.slots@[i as int].1,
                None => !self@.contains_key(key@),
            },
    {
        let wanted = key.to_owned();
        let mut i: usize = 0;
        while i < self.slots.len()
            invariant
                self.wf(),
                i <= self.slots@.len(),
                wanted@ == key@,
                forall|j: int| 0 <= j < i ==> !self.has_key_at(key@, j),
            decreases self.slots@.len() - i,
        {
            if self.slots[i].0 == wanted {
                proof {
                    self.lemma_view_at(i as int);
                }
                return Some(i);
            }
            i = i + 1;
        }
        None
    }

    /// The value under `key`, if any.
    pub fn get(&self, key: &str) -> (r: Option<&V>)
        requires
            self.wf(),
        ensures
            r is Some <==> self@.contains_key(key@),
            r matches Some(v) ==> *v == self@[key@],
    {
        match self.position(key) {
            Some(i) => Some(&self.slots[i].1),
            None => None,
        }
    }

    /// Puts `value` under `key`, replacing what was there.
    pub fn insert(&mut self, key: String, value: V)
        requires
            old(self).wf(),
        ensures
            final(self).wf(),
            final(self)@ == old(self)@.insert(key@, value),
    {
        let ghost before = *self;
        match self.position(key.as_str()) {
            Some(i) => {
                self.slots.set(i, (key, value));
                proof {
                    assert forall|a: int, b: int|
                        0 <= a < b < self.slots@.len() implies (#[trigger] self.slots@[a]).0@
                        != (#[trigger] self.slots@[b]).0@ by {
                        assert(before.slots@[a].0@ != before.slots@[b].0@);
                    }
                    assert forall|k: Seq<char>|
                        #[trigger] self@.contains_key(k) == before@.insert(key@, value).contains_key(
                            k,
                        ) && (self@.contains_key(k) ==> self@[k] == before@.insert(
                            key@,
                            value,
                        )[k]) by {
                        self.lemma_view_keys(k);
                        before.lemma_view_keys(k);
                        if exists|j: int| self.has_key_at(k, j) {
                            let j = choose|j: int| self.has_key_at(k, j);
                            self.lemma_view_at(j);
                            if j != i {
                                before.lemma_view_at(j);
                            }
                        }
                        if exists|j: int| before.has_key_at(k, j) {
                            let j = choose|j: int| before.has_key_at(k, j);
                            assert(self.has_key_at(k, j));
                        }
                    }
                    assert(self@ =~= before@.insert(key@, value));
                }
            },
            None => {
                self.slots.push((key, value));
                proof {
                    let n = before.slots@.len() as int;
                    assert forall|a: int, b: int|
                        0 <= a < b < self.slots@.len() implies (#[trigger] self.slots@[a]).0@
                        != (#[trigger] self.slots@[b]).0@ by {
                        if b == n {
                            before.lemma_view_at(a);
                        } else {
                            assert(before.slots@[a].0@ != before.slots@[b].0@);
                        }
                    }
                    assert forall|k: Seq<char>|
                        #[trigger] self@.contains_key(k) == before@.insert(key@, value).contains_key(
                            k,
                        ) && (self@.contains_key(k) ==> self@[k] == before@.insert(
                            key@,
                            value,
                        )[k]) by {
                        self.lemma_view_keys(k);
                        before.lemma_view_keys(k);
                        if exists|j: int| self.has_key_at(k, j) {
                            let j = choose|j: int| self.has_key_at(k, j);
                            self.lemma_view_at(j);
                            if j != n {
                                before.lemma_view_at(j);
                            }
                        }
                        if exists|j: int| before.has_key_at(k, j) {
                            let j = choose|j: int| before.has_key_at(k, j);
                            assert(self.has_key_at(k, j));
                        }
                        if k == key@ {
                            assert(self.has_key_at(k, n));
                        }
                    }
                    assert(self@ =~= before@.insert(key@, value));
                }
            },
        }
    }

    /// Takes the value under `key` out of the map, if there is one.
    pub fn remove(&mut self, key: &str) -> (r: Option<V>)
        requires
            old(self).wf(),
        ensures
            final(self).wf(),
            final(self)@ == old(self)@.remove(key@),
            r is Some <==> old(self)@.contains_key(key@),
            r matches Some(v) ==> v == old(self)@[key@],
    {
        let ghost before = *self;
        match self.position(key) {
            Some(i) => {
                let (_, value) = self.slots.remove(i);
                proof {
                    assert forall|a: int, b: int|
                        0 <= a < b < self.slots@.len() implies (#[trigger] self.slots@[a]).0@
                        != (#[trigger] self.slots@[b]).0@ by {
                        let a0 = if a < i { a } else { a + 1 };
                        let b0 = if b < i { b } else { b + 1 };
                        assert(self.slots@[a] == before.slots@[a0]);
                        assert(self.slots@[b] == before.slots@[b0]);
                        assert(before.slots@[a0].0@ != before.slots@[b0].0@);
                    }
                    assert forall|k: Seq<char>|
                        #[trigger] self@.contains_key(k) == before@.remove(key@).contains_key(k)
                            && (self@.contains_key(k) ==> self@[k] == before@.remove(key@)[k]) by {
                        self.lemma_view_keys(k);
                        before.lemma_view_keys(k);
                        if exists|j: int| self.has_key_at(k, j) {
                            let j = choose|j: int| self.has_key_at(k, j);
                            self.lemma_view_at(j);
                            let j0 = if j < i { j } else { j + 1 };
                            assert(self.slots@[j] == before.slots@[j0]);
                            before.lemma_view_at(j0);
                            if k == key@ {
                                assert(before.slots@[i as int].0@ != before.slots@[j0].0@ || i
                                    == j0);
                            }
                        }
                        if exists|j: int| before.has_key_at(k, j) {
                            let j = choose|j: int| before.has_key_at(k, j);
                            if j < i {
                                assert(self.has_key_at(k, j));
                            } else if j > i {
                                assert(self.slots@[j - 1] == before.slots@[j]);
                                assert(self.has_key_at(k, j - 1));
                            }
                        }
                    }
                    assert(self@ =~= before@.remove(key@));
                }
                Some(value)
            },
            None => {
                assert(self@ =~= before@.remove(key@));
                None
            },
        }
    }
}

} // verus!
