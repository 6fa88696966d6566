//! A map keyed by strings, held as two parallel vectors.

use vstd::prelude::*;

verus! {

/// The map that inserting the pairs of `s` in order builds: a later pair
/// for the same key wins.
pub open spec fn entries_map<V>(s: Seq<(Seq<char>, V)>) -> Map<Seq<char>, V>
    decreases s.len(),
{
    if s.len() == 0 {
        Map::empty()
    } else {
        entries_map(s.drop_last()).insert(s.last().0, s.last().1)
    }
}

pub struct StrMap<V> {
    keys: Vec<String>,
    vals: Vec<V>,
}

impl<V: View> StrMap<V> {
    /// The keys' views, in the order they are held.
    pub closed spec fn key_seq(&self) -> Seq<Seq<char>> {
        self.keys@.map_values(|k: String| k@)
    }

    /// Each key once, and one value per key.
    pub closed spec fn wf(&self) -> bool {
        &&& self.keys@.len() == self.vals@.len()
        &&& self.key_seq().no_duplicates()
    }

    pub closed spec fn spec_map(&self) -> Map<Seq<char>, V::V> {
        Map::new(
            |k: Seq<char>| self.key_seq().contains(k),
            |k: Seq<char>| self.vals@[self.key_seq().index_of(k)]@,
        )
    }

    /// The pairs held, in the order they are held.
    pub closed spec fn entries(&self) -> Seq<(Seq<char>, V::V)> {
        Seq::new(self.keys@.len(), |i: int| (self.key_seq()[i], self.vals@[i]@))
    }

    /// Inserting the held pairs in order into an empty map gives this map.
    pub proof fn lemma_entries(&self)
        requires
            self.wf(),
        ensures
            entries_map(self.entries()) == self.spec_map(),
            self.entries().len() == self.spec_map().len(),
    {
        let e = self.entries();
        let n = e.len() as int;
        self.lemma_entries_prefix(n);
        assert(e.subrange(0, n) =~= e);
        assert forall|k: Seq<char>| #[trigger] entries_map(e).contains_key(k) implies entries_map(e)[k]
            == self.spec_map()[k] by {
            let j = choose|j: int| 0 <= j < n && self.key_seq()[j] == k;
            self.lemma_index(j);
        }
        assert(entries_map(e) =~= self.spec_map());
        assert(self.spec_map().dom() =~= self.key_seq().to_set());
        self.key_seq().unique_seq_to_set();
    }

    proof fn lemma_entries_prefix(&self, n: int)
        requires
            self.wf(),
            0 <= n <= self.keys@.len(),
        ensures
            forall|k: Seq<char>| #[trigger]
                entries_map(self.entries().subrange(0, n)).contains_key(k) <==> exists|j: int|
                    0 <= j < n && self.key_seq()[j] == k,
            forall|j: int| 0 <= j < n ==> entries_map(self.entries().subrange(0, n))[#[trigger] self.key_seq()[j]]
                == self.vals@[j]@,
        decreases n,
    {
        let e = self.entries();
        if n > 0 {
            self.lemma_entries_prefix(n - 1);
            let p = e.subrange(0, n);
            assert(p.drop_last() =~= e.subrange(0, n - 1));
            assert forall|k: Seq<char>| #[trigger] entries_map(p).contains_key(k) <==> exists|j: int|
                0 <= j < n && self.key_seq()[j] == k by {
                if entries_map(p).contains_key(k) && k != self.key_seq()[n - 1] {
                    assert(entries_map(e.subrange(0, n - 1)).contains_key(k));
                }
                if exists|j: int| 0 <= j < n && self.key_seq()[j] == k {
                    let j = choose|j: int| 0 <= j < n && self.key_seq()[j] == k;
                    if j < n - 1 {
                        assert(entries_map(e.subrange(0, n - 1)).contains_key(self.key_seq()[j]));
                    }
                }
            }
            assert forall|j: int| 0 <= j < n implies entries_map(p)[#[trigger] self.key_seq()[j]]
                == self.vals@[j]@ by {
                if j < n - 1 {
                    assert(self.key_seq()[j] != self.key_seq()[n - 1]);
                }
            }
        }
    }

    /// A well-formed map holds finitely many keys.
    pub proof fn lemma_finite(&self)
        requires
            self.wf(),
        ensures
            self.spec_map().dom().finite(),
    {
        assert(self.spec_map().dom() =~= self.key_seq().to_set());
        vstd::seq_lib::seq_to_set_is_finite(self.key_seq());
    }

    /// The pair held at position `i` is in the map.
    pub proof fn lemma_entry_in_map(&self, i: int)
        requires
            self.wf(),
            0 <= i < self.entries().len(),
        ensures
            self.spec_map().contains_key(self.entries()[i].0),
            self.spec_map()[self.entries()[i].0] == self.entries()[i].1,
    {
        self.lemma_index(i);
    }

    proof fn lemma_index(&self, i: int)
        requires
            self.wf(),
            0 <= i < self.keys@.len(),
        ensures
            self.spec_map().contains_key(self.key_seq()[i]),
            self.spec_map()[self.key_seq()[i]] == self.vals@[i]@,
    {
        let k = self.key_seq()[i];
        assert(self.key_seq().contains(k));
        let j = self.key_seq().index_of(k);
        assert(0 <= j < self.key_seq().len() && self.key_seq()[j] == k);
    }

    pub fn new() -> (m: Self)
        ensures
            m.wf(),
            m.spec_map() == Map::<Seq<char>, V::V>::empty(),
    {
        let m = StrMap { keys: Vec::new(), vals: Vec::new() };
        assert(m.spec_map() =~= Map::<Seq<char>, V::V>::empty());
        m
    }

    pub fn len(&self) -> (n: usize)
        requires
            self.wf(),
        ensures
            n == self.spec_map().len(),
            n == self.entries().len(),
    {
        proof {
            assert(self.spec_map().dom() =~= self.key_seq().to_set());
            self.key_seq().unique_seq_to_set();
        }
        self.keys.len()
    }

    /// The pair held at position `i`.
    pub fn entry_at(&self, i: usize) -> (r: (&String, &V))
        requires
            self.wf(),
            i < self.entries().len(),
        ensures
            (r.0@, r.1@) == self.entries()[i as int],
    {
        (&self.keys[i], &self.vals[i])
    }

    fn find(&self, key: &String) -> (r: Option<usize>)
        requires
            self.wf(),
        ensures
            match r {
                Some(i) => i < self.keys@.len() && self.key_seq()[i as int] == key@,
                None => !self.key_seq().contains(key@),
            },
    {
        let mut i: usize = 0;
        while i < self.keys.len()
            invariant
                0 <= i <= self.keys@.len(),
                self.key_seq().len() == self.keys@.len(),
                forall|j: int| 0 <= j < i ==> self.key_seq()[j] != key@,
            decreases self.keys@.len() - i,
        {
            if self.keys[i] == *key {
                return Some(i);
            }
            i = i + 1;
        }
        None
    }

    pub fn get(&self, key: &String) -> (r: Option<&V>)
        requires
            self.wf(),
        ensures
            match r {
                Some(v) => self.spec_map().contains_key(key@) && v@ == self.spec_map()[key@],
                None => !self.spec_map().contains_key(key@),
            },
    {
        match self.find(key) {
            Some(i) => {
                proof {
                    self.lemma_index(i as int);
                }
                Some(&self.vals[i])
            },
            None => None,
        }
    }

    pub fn contains_key(&self, key: &String) -> (b: bool)
        requires
            self.wf(),
        ensures
            b == self.spec_map().contains_key(key@),
    {
        self.find(key).is_some()
    }

    pub fn insert(&mut self, key: String, value: V)
        requires
            old(self).wf(),
        ensures
            final(self).wf(),
            final(self).spec_map() == old(self).spec_map().insert(key@, value@),
    {
        let ghost kv = key@;
        let ghost vv = value@;
        match self.find(&key) {
            Some(i) => {
                self.vals.set(i, value);
                proof {
                    assert(self.key_seq() =~= old(self).key_seq());
                    assert forall|k: Seq<char>| #[trigger] self.spec_map().contains_key(k)
                        implies self.spec_map()[k] == old(self).spec_map().insert(kv, vv)[k] by {
                        let j = self.key_seq().index_of(k);
                        assert(0 <= j < self.key_seq().len() && self.key_seq()[j] == k);
                        if k == kv {
                            assert(j == i);
                        } else {
                            old(self).lemma_index(j);
                        }
                    }
                    assert(self.spec_map() =~= old(self).spec_map().insert(kv, vv));
                }
            },
            None => {
                self.keys.push(key);
                self.vals.push(value);
                proof {
                    let n = old(self).keys@.len();
                    assert(self.key_seq() =~= old(self).key_seq().push(kv));
                    assert forall|k: Seq<char>| #[trigger] self.spec_map().contains_key(k)
                        implies self.spec_map()[k] == old(self).spec_map().insert(kv, vv)[k] by {
                        let j = self.key_seq().index_of(k);
                        assert(0 <= j < self.key_seq().len() && self.key_seq()[j] == k);
                        if k == kv {
                            assert(j == n);
                        } else {
                            assert(j < n);
                            assert(old(self).key_seq()[j] == k);
                            old(self).lemma_index(j);
                        }
                    }
                    assert forall|k: Seq<char>|
                        self.spec_map().contains_key(k) <==> old(self).spec_map().insert(kv, vv).contains_key(k) by {
                        if old(self).key_seq().contains(k) {
                            let j = old(self).key_seq().index_of(k);
                            assert(0 <= j < n && old(self).key_seq()[j] == k);
                            assert(self.key_seq()[j] == k);
                        }
                        if k == kv {
                            assert(self.key_seq()[n as int] == k);
                        }
                    }
                    assert(self.spec_map() =~= old(self).spec_map().insert(kv, vv));
                }
            },
        }
    }

    pub fn remove(&mut self, key: &String) -> (r: Option<V>)
        requires
            old(self).wf(),
        ensures
            final(self).wf(),
            final(self).spec_map() == old(self).spec_map().remove(key@),
            match r {
                Some(v) => old(self).spec_map().contains_key(key@) && v@ == old(self).spec_map()[key@],
                None => !old(self).spec_map().contains_key(key@),
            },
    {
        match self.find(key) {
            Some(i) => {
                let ghost s = old(self).key_seq();
                proof {
                    old(self).lemma_index(i as int);
                }
                self.keys.swap_remove(i);
                let v = self.vals.swap_remove(i);
                proof {
                    let n = s.len();
                    assert(self.key_seq() =~= s.update(i as int, s.last()).drop_last());
                    assert(self.key_seq().no_duplicates()) by {
                        assert forall|a: int, b: int|
                            0 <= a < self.key_seq().len() && 0 <= b < self.key_seq().len() && a != b
                            implies self.key_seq()[a] != self.key_seq()[b] by {
                            let ia = if a == i { n - 1 } else { a };
                            let ib = if b == i { n - 1 } else { b };
                            assert(self.key_seq()[a] == s[ia]);
                            assert(self.key_seq()[b] == s[ib]);
                        }
                    }
                    let target = old(self).spec_map().remove(key@);
                    assert forall|k: Seq<char>|
                        self.spec_map().contains_key(k) <==> target.contains_key(k) by {
                        if self.spec_map().contains_key(k) {
                            let j = self.key_seq().index_of(k);
                            assert(0 <= j < self.key_seq().len() && self.key_seq()[j] == k);
                            let jj = if j == i { n - 1 } else { j };
                            assert(s[jj] == k);
                            assert(jj != i);
                            assert(s.contains(k));
                        }
                        if target.contains_key(k) {
                            let j = s.index_of(k);
                            assert(0 <= j < n && s[j] == k);
                            assert(j != i);
                            let jj = if j == n - 1 { i as int } else { j };
                            assert(self.key_seq()[jj] == k);
                        }
                    }
                    assert forall|k: Seq<char>| #[trigger] self.spec_map().contains_key(k)
                        implies self.spec_map()[k] == target[k] by {
                        let j = self.key_seq().index_of(k);
                        assert(0 <= j < self.key_seq().len() && self.key_seq()[j] == k);
                        let jj = if j == i { n - 1 } else { j };
                        assert(s[jj] == k);
                        assert(self.vals@[j] == old(self).vals@[jj]);
                        old(self).lemma_index(jj);
                    }
                    assert(self.spec_map() =~= target);
                }
                Some(v)
            },
            None => {
                assert(old(self).spec_map().remove(key@) =~= old(self).spec_map());
                None
            },
        }
    }
}

} // verus!
