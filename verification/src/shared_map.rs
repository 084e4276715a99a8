//! A string-to-string map that a program shares between its parts, with the
//! look-up-then-remove operation that uses the value found as the key to
//! remove.
use vstd::prelude::*;

verus! {

/// A map from strings to strings, kept as a list of entries with distinct
/// keys.
#[derive(Debug)]
pub struct SharedMap {
    entries: Vec<(String, String)>,
}

impl SharedMap {
    /// The map's invariant: no key occurs twice.
    pub closed spec fn wf(&self) -> bool {
        forall|i: int, j: int|
            0 <= i < j < self.entries@.len() ==> #[trigger] self.entries@[i].0@
                != #[trigger] self.entries@[j].0@
    }

    /// Whether some entry has key `k`.
    pub closed spec fn has_key(&self, k: Seq<char>) -> bool {
        exists|i: int| 0 <= i < self.entries@.len() && #[trigger] self.entries@[i].0@ == k
    }

    /// The position of the entry with key `k`.
    pub closed spec fn index_of(&self, k: Seq<char>) -> int {
        choose|i: int| 0 <= i < self.entries@.len() && #[trigger] self.entries@[i].0@ == k
    }

    /// The map that the entries stand for.
    pub closed spec fn as_map(&self) -> Map<Seq<char>, Seq<char>> {
        Map::new(|k: Seq<char>| self.has_key(k), |k: Seq<char>| self.entries@[self.index_of(k)].1@)
    }

    proof fn lemma_index_of(&self, i: int)
        requires
            self.wf(),
            0 <= i < self.entries@.len(),
        ensures
            self.has_key(self.entries@[i].0@),
            self.index_of(self.entries@[i].0@) == i,
            self.as_map().dom().contains(self.entries@[i].0@),
            self.as_map()[self.entries@[i].0@] == self.entries@[i].1@,
    {
        let k = self.entries@[i].0@;
        assert(self.has_key(k));
        let j = self.index_of(k);
        if j != i {
            if j < i {
                assert(self.entries@[j].0@ != self.entries@[i].0@);
            } else {
                assert(self.entries@[i].0@ != self.entries@[j].0@);
            }
        }
    }

    /// An empty map.
    pub fn new() -> (m: Self)
        ensures
            m.wf(),
            m.as_map() == Map::<Seq<char>, Seq<char>>::empty(),
    {
        let m = SharedMap { entries: Vec::new() };
        assert(m.as_map() =~= Map::<Seq<char>, Seq<char>>::empty());
        m
    }

    /// The position of the entry with key `key`, if any.
    fn find(&self, key: &String) -> (r: Option<usize>)
        requires
            self.wf(),
        ensures
            r matches Some(i) ==> i < self.entries@.len() && self.entries@[i as int].0@ == key@,
            r is None ==> !self.has_key(key@),
    {
        let mut i: usize = 0;
        while i < self.entries.len()
            invariant
                0 <= i <= self.entries@.len(),
                forall|j: int| 0 <= j < i ==> #[trigger] self.entries@[j].0@ != key@,
            decreases self.entries@.len() - i,
        {
            if self.entries[i].0 == *key {
                return Some(i);
            }
            i = i + 1;
        }
        None
    }

    /// The value stored under `key`, if any.
    pub fn get(&self, key: &String) -> (r: Option<String>)
        requires
            self.wf(),
        ensures
            r is Some <==> self.as_map().dom().contains(key@),
            r matches Some(v) ==> v@ == self.as_map()[key@],
    {
        match self.find(key) {
            Some(i) => {
                proof {
                    self.lemma_index_of(i as int);
                }
                Some(self.entries[i].1.clone())
            },
            None => None,
        }
    }

    /// Stores `value` under `key`, replacing the value stored there before.
    pub fn insert(&mut self, key: String, value: String)
        requires
            old(self).wf(),
        ensures
            final(self).wf(),
            final(self).as_map() == old(self).as_map().insert(key@, value@),
    {
        let ghost old_map = self.as_map();
        match self.find(&key) {
            Some(i) => {
                let ghost k = key@;
                let ghost v = value@;
                self.entries.set(i, (key, value));
                proof {
                    assert forall|a: int, b: int|
                        0 <= a < b < self.entries@.len() implies #[trigger] self.entries@[a].0@
                        != #[trigger] self.entries@[b].0@ by {
                        assert(old(self).entries@[a].0@ != old(self).entries@[b].0@);
                    }
                    assert forall|kk: Seq<char>| #[trigger]
                        self.as_map().dom().contains(kk) == old_map.insert(k, v).dom().contains(kk) by {
                        if self.has_key(kk) {
                            let j = self.index_of(kk);
                            if j != i {
                                assert(old(self).entries@[j].0@ == kk);
                            }
                        }
                        if old(self).has_key(kk) {
                            let j = old(self).index_of(kk);
                            if j != i {
                                assert(self.entries@[j].0@ == kk);
                            }
                        }
                    }
                    assert forall|kk: Seq<char>| #[trigger]
                        self.as_map().dom().contains(kk) implies self.as_map()[kk] == old_map.insert(
                        k,
                        v,
                    )[kk] by {
                        let j = self.index_of(kk);
                        self.lemma_index_of(j);
                        if j != i {
                            old(self).lemma_index_of(j);
                        }
                    }
                    assert(self.as_map() =~= old_map.insert(k, v));
                }
            },
            None => {
                let ghost k = key@;
                let ghost v = value@;
                self.entries.push((key, value));
                proof {
                    let n = old(self).entries@.len() as int;
                    assert forall|a: int, b: int|
                        0 <= a < b < self.entries@.len() implies #[trigger] self.entries@[a].0@
                        != #[trigger] self.entries@[b].0@ by {
                        if b < n {
                            assert(old(self).entries@[a].0@ != old(self).entries@[b].0@);
                        } else {
                            assert(old(self).entries@[a].0@ != k);
                        }
                    }
                    self.lemma_index_of(n);
                    assert forall|kk: Seq<char>| #[trigger]
                        self.as_map().dom().contains(kk) == old_map.insert(k, v).dom().contains(kk) by {
                        if self.has_key(kk) {
                            let j = self.index_of(kk);
                            if j != n {
                                assert(old(self).entries@[j].0@ == kk);
                            }
                        }
                        if old(self).has_key(kk) {
                            let j = old(self).index_of(kk);
                            assert(self.entries@[j].0@ == kk);
                        }
                    }
                    assert forall|kk: Seq<char>| #[trigger]
                        self.as_map().dom().contains(kk) implies self.as_map()[kk] == old_map.insert(
                        k,
                        v,
                    )[kk] by {
                        let j = self.index_of(kk);
                        self.lemma_index_of(j);
                        if j != n {
                            old(self).lemma_index_of(j);
                        }
                    }
                    assert(self.as_map() =~= old_map.insert(k, v));
                }
            },
        }
    }

    /// Removes the entry with key `key`, returning its value, if any.
    pub fn remove(&mut self, key: &String) -> (r: Option<String>)
        requires
            old(self).wf(),
        ensures
            final(self).wf(),
            final(self).as_map() == old(self).as_map().remove(key@),
            r is Some <==> old(self).as_map().dom().contains(key@),
            r matches Some(v) ==> v@ == old(self).as_map()[key@],
    {
        let ghost old_map = self.as_map();
        match self.find(key) {
            Some(i) => {
                proof {
                    self.lemma_index_of(i as int);
                }
                let (_, value) = self.entries.remove(i);
                proof {
                    let k = key@;
                    let o = old(self).entries@;
                    assert forall|a: int| 0 <= a < self.entries@.len() implies #[trigger] self.entries@[a]
                        == if a < i {
                        o[a]
                    } else {
                        o[a + 1]
                    } by {}
                    assert forall|a: int, b: int|
                        0 <= a < b < self.entries@.len() implies #[trigger] self.entries@[a].0@
                        != #[trigger] self.entries@[b].0@ by {
                        let oa = if a < i { a } else { a + 1 };
                        let ob = if b < i { b } else { b + 1 };
                        assert(self.entries@[a] == o[oa]);
                        assert(self.entries@[b] == o[ob]);
                        assert(o[oa].0@ != o[ob].0@);
                    }
                    assert forall|kk: Seq<char>| #[trigger]
                        self.as_map().dom().contains(kk) == old_map.remove(k).dom().contains(kk) by {
                        if self.has_key(kk) {
                            let j = self.index_of(kk);
                            let oj = if j < i { j } else { j + 1 };
                            assert(self.entries@[j] == o[oj]);
                            assert(o[oj].0@ == kk);
                            assert(o[oj].0@ != o[i as int].0@);
                        }
                        if old(self).has_key(kk) && kk != k {
                            let j = old(self).index_of(kk);
                            assert(j != i);
                            let nj = if j < i { j } else { j - 1 };
                            assert(self.entries@[nj] == o[j]);
                            assert(self.entries@[nj].0@ == kk);
                        }
                    }
                    assert forall|kk: Seq<char>| #[trigger]
                        self.as_map().dom().contains(kk) implies self.as_map()[kk] == old_map.remove(
                        k,
                    )[kk] by {
                        let j = self.index_of(kk);
                        self.lemma_index_of(j);
                        let oj = if j < i { j } else { j + 1 };
                        assert(self.entries@[j] == o[oj]);
                        old(self).lemma_index_of(oj);
                    }
                    assert(self.as_map() =~= old_map.remove(k));
                }
                Some(value)
            },
            None => {
                assert(self.as_map() =~= old_map.remove(key@));
                None
            },
        }
    }

    /// Looks up `key` and, when it is present, removes the entry whose key is
    /// the value found there (not the entry under `key` itself) and returns
    /// that value; when `key` is absent, the map is left as it was.
    pub fn get_and_remove(&mut self, key: &String) -> (r: Option<String>)
        requires
            old(self).wf(),
        ensures
            final(self).wf(),
            r is Some <==> old(self).as_map().dom().contains(key@),
            r matches Some(v) ==> {
                &&& v@ == old(self).as_map()[key@]
                &&& final(self).as_map() == old(self).as_map().remove(v@)
            },
            r is None ==> final(self).as_map() == old(self).as_map(),
    {
        match self.get(key) {
            Some(value) => {
                let _ = self.remove(&value);
                Some(value)
            },
            None => None,
        }
    }

    /// The entries, in storage order: each is a pair of the map, and every
    /// key of the map occurs in exactly one of them.
    pub fn entries(&self) -> (r: &Vec<(String, String)>)
        requires
            self.wf(),
        ensures
            forall|i: int|
                0 <= i < r@.len() ==> #[trigger] self.as_map().dom().contains(r@[i].0@)
                    && self.as_map()[r@[i].0@] == r@[i].1@,
            forall|k: Seq<char>|
                #[trigger] self.as_map().dom().contains(k) ==> exists|i: int|
                    0 <= i < r@.len() && #[trigger] r@[i].0@ == k,
            forall|i: int, j: int| 0 <= i < j < r@.len() ==> #[trigger] r@[i].0@ != #[trigger] r@[j].0@,
    {
        proof {
            assert forall|i: int| 0 <= i < self.entries@.len() implies #[trigger] self.as_map().dom().contains(
                self.entries@[i].0@,
            ) && self.as_map()[self.entries@[i].0@] == self.entries@[i].1@ by {
                self.lemma_index_of(i);
            }
        }
        &self.entries
    }
} // impl

/// What a write stores a read gives back: after `insert(k, v)`, `get(k)`
/// finds `v`, and every other key keeps its value.
pub proof fn lemma_get_after_insert(
    before: SharedMap,
    after: SharedMap,
    k: Seq<char>,
    v: Seq<char>,
    other: Seq<char>,
)
    requires
        after.as_map() == before.as_map().insert(k, v),
        other != k,
    ensures
        after.as_map().dom().contains(k),
        after.as_map()[k] == v,
        after.as_map().dom().contains(other) == before.as_map().dom().contains(other),
        before.as_map().dom().contains(other) ==> after.as_map()[other] == before.as_map()[other],
{
}

/// After `remove(k)` the key is gone and every other key keeps its value.
pub proof fn lemma_get_after_remove(before: SharedMap, after: SharedMap, k: Seq<char>, other: Seq<char>)
    requires
        after.as_map() == before.as_map().remove(k),
        other != k,
    ensures
        !after.as_map().dom().contains(k),
        after.as_map().dom().contains(other) == before.as_map().dom().contains(other),
        before.as_map().dom().contains(other) ==> after.as_map()[other] == before.as_map()[other],
{
}

} // verus!
