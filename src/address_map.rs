use vstd::prelude::*;

verus! {

/// The value recorded for key `k`: the last entry with that key wins.
pub open spec fn lookup<V>(s: Seq<(String, V)>, k: Seq<char>) -> Option<V>
    decreases s.len(),
{
    if s.len() == 0 {
        None
    } else if s.last().0@ == k {
        Some(s.last().1)
    } else {
        lookup(s.drop_last(), k)
    }
}

/// No two entries share a key.
pub open spec fn keys_unique<V>(s: Seq<(String, V)>) -> bool {
    forall|i: int, j: int| #![trigger s[i], s[j]] 0 <= i < j < s.len() ==> s[i].0@ != s[j].0@
}

/// A map from addresses to values, kept as a list of entries with unique keys.
pub struct AddressMap<V> {
    entries: Vec<(String, V)>,
}

proof fn lemma_lookup_absent<V>(s: Seq<(String, V)>, k: Seq<char>)
    requires
        forall|i: int| 0 <= i < s.len() ==> s[i].0@ != k,
    ensures
        lookup(s, k) is None,
    decreases s.len(),
{
    if s.len() > 0 {
        lemma_lookup_absent(s.drop_last(), k);
    }
}

proof fn lemma_lookup_at<V>(s: Seq<(String, V)>, i: int, k: Seq<char>)
    requires
        0 <= i < s.len(),
        s[i].0@ == k,
        forall|j: int| i < j < s.len() ==> s[j].0@ != k,
    ensures
        lookup(s, k) == Some(s[i].1),
    decreases s.len(),
{
    if i < s.len() - 1 {
        lemma_lookup_at(s.drop_last(), i, k);
    }
}

proof fn lemma_lookup_remove<V>(s: Seq<(String, V)>, i: int, k: Seq<char>)
    requires
        0 <= i < s.len(),
        s[i].0@ != k,
    ensures
        lookup(s.remove(i), k) == lookup(s, k),
    decreases s.len(),
{
    if i < s.len() - 1 {
        assert(s.remove(i).drop_last() =~= s.drop_last().remove(i));
        lemma_lookup_remove(s.drop_last(), i, k);
    } else {
        assert(s.remove(i) =~= s.drop_last());
    }
}

impl<V> AddressMap<V> {
    pub closed spec fn spec_entries(&self) -> Seq<(String, V)> {
        self.entries@
    }

    pub open spec fn wf(&self) -> bool {
        keys_unique(self.spec_entries())
    }

    pub open spec fn spec_get(&self, k: Seq<char>) -> Option<V> {
        lookup(self.spec_entries(), k)
    }

    pub fn new() -> (m: Self)
        ensures
            m.wf(),
            m.spec_entries().len() == 0,
            forall|k: Seq<char>| (#[trigger] m.spec_get(k)) is None,
    {
        AddressMap { entries: Vec::new() }
    }

    pub fn len(&self) -> (n: usize)
        ensures
            n == self.spec_entries().len(),
    {
        self.entries.len()
    }

    /// The entry at position `i`.
    pub fn entry(&self, i: usize) -> (e: &(String, V))
        requires
            i < self.spec_entries().len(),
        ensures
            *e == self.spec_entries()[i as int],
    {
        &self.entries[i]
    }

    /// The position of the entry for `k`, if any.
    pub fn find(&self, k: &String) -> (r: Option<usize>)
        requires
            self.wf(),
        ensures
            match r {
                Some(i) => {
                    &&& i < self.spec_entries().len()
                    &&& self.spec_entries()[i as int].0@ == k@
                    &&& self.spec_get(k@) == Some(self.spec_entries()[i as int].1)
                },
                None => {
                    &&& self.spec_get(k@) is None
                    &&& forall|j: int| 0 <= j < self.spec_entries().len() ==> self.spec_entries()[j].0@ != k@
                },
            },
    {
        let n = self.entries.len();
        let mut i: usize = 0;
        while i < n
            invariant
                n == self.entries@.len(),
                self.wf(),
                0 <= i <= n,
                forall|j: int| 0 <= j < i ==> self.entries@[j].0@ != k@,
            decreases n - i,
        {
            if self.entries[i].0 == *k {
                proof {
                    assert(self.spec_entries() == self.entries@);
                    assert forall|j: int| i < j < n implies self.entries@[j].0@ != k@ by {
                        assert(self.entries@[i as int].0@ != self.entries@[j].0@);
                    }
                    lemma_lookup_at(self.entries@, i as int, k@);
                }
                return Some(i);
            }
            i = i + 1;
        }
        proof {
            lemma_lookup_absent(self.entries@, k@);
        }
        None
    }

    pub fn contains(&self, k: &String) -> (r: bool)
        requires
            self.wf(),
        ensures
            r == self.spec_get(k@) is Some,
    {
        self.find(k).is_some()
    }

    /// Removes the entry for `k`, returning its value.
    pub fn remove(&mut self, k: &String) -> (r: Option<V>)
        requires
            old(self).wf(),
        ensures
            final(self).wf(),
            r == old(self).spec_get(k@),
            r is None ==> *final(self) == *old(self),
            final(self).spec_get(k@) is None,
            forall|k2: Seq<char>| k2 != k@ ==> #[trigger] final(self).spec_get(k2) == old(self).spec_get(k2),
            match old(self).spec_get(k@) {
                None => final(self).spec_entries() == old(self).spec_entries(),
                Some(v) => exists|i: int|
                    0 <= i < old(self).spec_entries().len() && old(self).spec_entries()[i].0@ == k@
                        && old(self).spec_entries()[i].1 == v
                        && final(self).spec_entries() == old(self).spec_entries().remove(i),
            },
    {
        match self.find(k) {
            None => None,
            Some(i) => {
                let ghost s = self.entries@;
                let (_, v) = self.entries.remove(i);
                proof {
                    assert(self.entries@ == s.remove(i as int));
                    assert forall|k2: Seq<char>| k2 != k@ implies #[trigger] lookup(self.entries@, k2)
                        == lookup(s, k2) by {
                        lemma_lookup_remove(s, i as int, k2);
                    }
                    assert forall|j: int| 0 <= j < self.entries@.len() implies self.entries@[j].0@
                        != k@ by {
                        if j < i {
                            assert(self.entries@[j] == s[j]);
                        } else {
                            assert(self.entries@[j] == s[j + 1]);
                        }
                    }
                    lemma_lookup_absent(self.entries@, k@);
                }
                Some(v)
            },
        }
    }

    /// Sets the value for `k`, replacing any earlier one.
    pub fn insert(&mut self, k: String, v: V)
        requires
            old(self).wf(),
        ensures
            final(self).wf(),
            final(self).spec_get(k@) == Some(v),
            forall|k2: Seq<char>| k2 != k@ ==> #[trigger] final(self).spec_get(k2) == old(self).spec_get(k2),
            match old(self).spec_get(k@) {
                None => final(self).spec_entries() == old(self).spec_entries().push((k, v)),
                Some(w) => exists|i: int|
                    0 <= i < old(self).spec_entries().len() && old(self).spec_entries()[i].0@ == k@
                        && old(self).spec_entries()[i].1 == w
                        && final(self).spec_entries() == old(self).spec_entries().remove(i).push((k, v)),
            },
    {
        let _ = self.remove(&k);
        let ghost mid = *self;
        let ghost s = self.entries@;
        proof {
            assert forall|j: int| 0 <= j < s.len() implies s[j].0@ != k@ by {
                if s[j].0@ == k@ {
                    lemma_lookup_at(s, j, k@);
                }
            }
        }
        let ghost kv = k@;
        self.entries.push((k, v));
        proof {
            assert(self.entries@.drop_last() =~= s);
            assert(keys_unique(s));
            assert forall|i: int, j: int| 0 <= i < j < self.entries@.len() implies self.entries@[i].0@
                != self.entries@[j].0@ by {
                if j < s.len() {
                    assert(self.entries@[i] == s[i] && self.entries@[j] == s[j]);
                } else {
                    assert(self.entries@[i] == s[i]);
                }
            }
            assert(keys_unique(self.entries@));
            assert forall|k2: Seq<char>| k2 != kv implies #[trigger] self.spec_get(k2) == old(
                self,
            ).spec_get(k2) by {
                assert(lookup(self.entries@, k2) == lookup(s, k2));
                assert(self.entries@.last().0@ == kv);
                assert(mid.spec_get(k2) == old(self).spec_get(k2));
            }
        }
    }
}

} // verus!
