//! An association list from string keys to byte values, each key held at most
//! once. Both the in-memory cache and the durable backing store keep their
//! entries in one; its view is the finite map the entries denote, and the
//! order of the entries is the insertion order that listing reports.

use vstd::prelude::*;

verus! {

pub(crate) struct Table {
    pub(crate) entries: Vec<(String, Vec<u8>)>,
}

/// The key sequence after storing under `k`: unchanged when `k` is already
/// present (an overwrite), extended by `k` at the end otherwise.
pub open spec fn put_keys(ks: Seq<Seq<char>>, k: Seq<char>) -> Seq<Seq<char>> {
    if ks.contains(k) {
        ks
    } else {
        ks.push(k)
    }
}

impl Table {
    /// The keys of the entries, in insertion order.
    pub(crate) open spec fn key_seq(self) -> Seq<Seq<char>> {
        self.entries@.map_values(|e: (String, Vec<u8>)| e.0@)
    }

    /// Well-formed: no key occurs twice.
    pub(crate) open spec fn wf(self) -> bool {
        forall|i: int, j: int|
            0 <= i < j < self.entries@.len() ==> self.entries@[i].0@ != self.entries@[j].0@
    }

    /// The index of the entry holding `k`; meaningful only when some entry does.
    pub(crate) open spec fn index_of(self, k: Seq<char>) -> int {
        choose|i: int| 0 <= i < self.entries@.len() && self.entries@[i].0@ == k
    }

    /// The finite map the entries denote.
    pub(crate) open spec fn as_map(self) -> Map<Seq<char>, Seq<u8>> {
        Map::new(
            |k: Seq<char>| self.key_seq().contains(k),
            |k: Seq<char>| self.entries@[self.index_of(k)].1@,
        )
    }

    pub(crate) proof fn lemma_entry_index(self, i: int)
        requires
            self.wf(),
            0 <= i < self.entries@.len(),
        ensures
            self.index_of(self.entries@[i].0@) == i,
            self.key_seq().contains(self.entries@[i].0@),
            self.as_map().contains_key(self.entries@[i].0@),
            self.as_map()[self.entries@[i].0@] == self.entries@[i].1@,
    {
        assert(self.key_seq()[i] == self.entries@[i].0@);
        let j = self.index_of(self.entries@[i].0@);
        assert(0 <= j < self.entries@.len() && self.entries@[j].0@ == self.entries@[i].0@);
        if i < j {
            assert(false);
        } else if j < i {
            assert(false);
        }
    }

    /// The map's domain is exactly the set of listed keys.
    pub(crate) proof fn lemma_domain(self)
        ensures
            forall|k: Seq<char>| self.as_map().contains_key(k) <==> self.key_seq().contains(k),
    {
    }

    pub(crate) fn new() -> (t: Table)
        ensures
            t.wf(),
            t.as_map() == Map::<Seq<char>, Seq<u8>>::empty(),
            t.key_seq() == Seq::<Seq<char>>::empty(),
    {
        let t = Table { entries: Vec::new() };
        proof {
            assert(t.key_seq() =~= Seq::<Seq<char>>::empty());
            assert(t.as_map() =~= Map::<Seq<char>, Seq<u8>>::empty());
        }
        t
    }

    /// The position of the entry holding `key`, if any entry does.
    fn find(&self, key: &String) -> (r: Option<usize>)
        ensures
            match r {
                Some(i) => i < self.entries@.len() && self.entries@[i as int].0@ == key@,
                None => !self.key_seq().contains(key@),
            },
    {
        let mut i: usize = 0;
        while i < self.entries.len()
            invariant
                i <= self.entries@.len(),
                forall|j: int| 0 <= j < i ==> self.entries@[j].0@ != key@,
            decreases self.entries@.len() - i,
        {
            if self.entries[i].0 == *key {
                return Some(i);
            }
            i += 1;
        }
        proof {
            assert(forall|j: int|
                0 <= j < self.key_seq().len() ==> self.key_seq()[j] == self.entries@[j].0@);
        }
        None
    }

    /// The value stored under `key`, or absent.
    pub(crate) fn lookup(&self, key: &String) -> (r: Option<Vec<u8>>)
        requires
            self.wf(),
        ensures
            match r {
                Some(v) => self.as_map().contains_key(key@) && v@ == self.as_map()[key@],
                None => !self.as_map().contains_key(key@),
            },
    {
        match self.find(key) {
            Some(i) => {
                let v = vstd::slice::slice_to_vec(self.entries[i].1.as_slice());
                proof {
                    self.lemma_entry_index(i as int);
                }
                Some(v)
            },
            None => {
                proof {
                    self.lemma_domain();
                }
                None
            },
        }
    }

    /// Store `value` under `key`, overwriting any entry the key already has.
    pub(crate) fn insert(&mut self, key: String, value: Vec<u8>)
        requires
            old(self).wf(),
        ensures
            final(self).wf(),
            final(self).as_map() == old(self).as_map().insert(key@, value@),
            final(self).key_seq() == put_keys(old(self).key_seq(), key@),
    {
        let ghost pre = *self;
        match self.find(&key) {
            Some(i) => {
                self.entries.set(i, (key, value));
                proof {
                    assert(final(self).key_seq() =~= pre.key_seq());
                    assert(pre.key_seq().contains(key@)) by {
                        assert(pre.key_seq()[i as int] == key@);
                    }
                    Self::lemma_insert_overwrite(pre, *self, i as int, key@, value@);
                }
            },
            None => {
                self.entries.push((key, value));
                proof {
                    assert(final(self).key_seq() =~= pre.key_seq().push(key@));
                    Self::lemma_insert_fresh(pre, *self, key@, value@);
                }
            },
        }
    }

    proof fn lemma_insert_overwrite(pre: Table, post: Table, i: int, k: Seq<char>, v: Seq<u8>)
        requires
            pre.wf(),
            0 <= i < pre.entries@.len(),
            pre.entries@[i].0@ == k,
            post.entries@ == pre.entries@.update(i, (post.entries@[i].0, post.entries@[i].1)),
            post.entries@[i].0@ == k,
            post.entries@[i].1@ == v,
        ensures
            post.wf(),
            post.as_map() =~= pre.as_map().insert(k, v),
    {
        assert(post.key_seq() =~= pre.key_seq());
        assert forall|a: int, b: int|
            0 <= a < b < post.entries@.len() implies post.entries@[a].0@
            != post.entries@[b].0@ by {
            assert(post.key_seq()[a] == post.entries@[a].0@);
            assert(pre.key_seq()[a] == pre.entries@[a].0@);
            assert(post.key_seq()[b] == post.entries@[b].0@);
            assert(pre.key_seq()[b] == pre.entries@[b].0@);
        }
        assert forall|q: Seq<char>| post.as_map().contains_key(q) implies post.as_map()[q]
            == pre.as_map().insert(k, v)[q] by {
            let j = post.index_of(q);
            assert(0 <= j < post.entries@.len() && post.entries@[j].0@ == q);
            post.lemma_entry_index(j);
            if q == k {
                assert(j == i) by {
                    if j != i {
                        assert(pre.entries@[j].0@ == q);
                    }
                }
            } else {
                assert(j != i);
                assert(pre.entries@[j].0@ == q && pre.entries@[j].1@ == post.entries@[j].1@);
                pre.lemma_entry_index(j);
            }
        }
        assert forall|q: Seq<char>|
            post.as_map().contains_key(q) <==> pre.as_map().insert(k, v).contains_key(q) by {
            assert(pre.key_seq().contains(k)) by {
                assert(pre.key_seq()[i] == k);
            }
        }
    }

    proof fn lemma_insert_fresh(pre: Table, post: Table, k: Seq<char>, v: Seq<u8>)
        requires
            pre.wf(),
            !pre.key_seq().contains(k),
            post.entries@.len() == pre.entries@.len() + 1,
            forall|j: int| 0 <= j < pre.entries@.len() ==> post.entries@[j] == pre.entries@[j],
            post.entries@.last().0@ == k,
            post.entries@.last().1@ == v,
        ensures
            post.wf(),
            post.as_map() =~= pre.as_map().insert(k, v),
    {
        let n = pre.entries@.len() as int;
        assert(forall|j: int| 0 <= j < n ==> pre.key_seq()[j] == pre.entries@[j].0@);
        assert forall|j: int| 0 <= j < n implies pre.entries@[j].0@ != k by {
            if pre.entries@[j].0@ == k {
                assert(pre.key_seq()[j] == k);
                assert(pre.key_seq().contains(k));
            }
        }
        assert forall|a: int, b: int|
            0 <= a < b < post.entries@.len() implies post.entries@[a].0@
            != post.entries@[b].0@ by {
            if b < n {
                assert(post.entries@[a].0@ == pre.entries@[a].0@);
                assert(post.entries@[b].0@ == pre.entries@[b].0@);
            } else {
                assert(post.entries@[b].0@ == k);
                assert(post.entries@[a].0@ == pre.entries@[a].0@);
            }
        }
        assert forall|q: Seq<char>| post.as_map().contains_key(q) implies post.as_map()[q]
            == pre.as_map().insert(k, v)[q] by {
            let j = post.index_of(q);
            assert(0 <= j < post.entries@.len() && post.entries@[j].0@ == q);
            post.lemma_entry_index(j);
            if q == k {
                assert(j == n) by {
                    if j < n {
                        assert(pre.key_seq()[j] == q);
                    }
                }
            } else {
                assert(j < n) by {
                    assert(post.entries@[n].0@ == k);
                }
                assert(pre.entries@[j].0@ == q && pre.entries@[j].1@ == post.entries@[j].1@);
                pre.lemma_entry_index(j);
            }
        }
        assert forall|q: Seq<char>|
            post.as_map().contains_key(q) <==> pre.as_map().insert(k, v).contains_key(q) by {
            if q == k {
                assert(post.key_seq()[n] == k);
            } else if pre.key_seq().contains(q) {
                let j = choose|j: int| 0 <= j < n && pre.key_seq()[j] == q;
                assert(post.key_seq()[j] == q);
            } else if post.key_seq().contains(q) {
                let j = choose|j: int| 0 <= j < n + 1 && post.key_seq()[j] == q;
                assert(j < n ==> pre.key_seq()[j] == q);
            }
        }
    }

    /// Every entry, cloned, in insertion order.
    pub(crate) fn pairs(&self) -> (r: Vec<(String, Vec<u8>)>)
        requires
            self.wf(),
        ensures
            r@.len() == self.key_seq().len(),
            forall|i: int|
                0 <= i < r@.len() ==> (#[trigger] r@[i]).0@ == self.key_seq()[i] && r@[i].1@
                    == self.as_map()[self.key_seq()[i]],
    {
        let mut r: Vec<(String, Vec<u8>)> = Vec::new();
        let mut i: usize = 0;
        while i < self.entries.len()
            invariant
                self.wf(),
                i <= self.entries@.len(),
                r@.len() == i,
                forall|j: int|
                    0 <= j < i ==> (#[trigger] r@[j]).0@ == self.key_seq()[j] && r@[j].1@
                        == self.as_map()[self.key_seq()[j]],
            decreases self.entries@.len() - i,
        {
            let key = self.entries[i].0.clone();
            let value = vstd::slice::slice_to_vec(self.entries[i].1.as_slice());
            proof {
                self.lemma_entry_index(i as int);
            }
            r.push((key, value));
            i += 1;
        }
        r
    }

    /// Every key, cloned, in insertion order.
    pub(crate) fn keys(&self) -> (r: Vec<String>)
        ensures
            r@.len() == self.key_seq().len(),
            forall|i: int| 0 <= i < r@.len() ==> r@[i]@ == self.key_seq()[i],
    {
        let mut r: Vec<String> = Vec::new();
        let mut i: usize = 0;
        while i < self.entries.len()
            invariant
                i <= self.entries@.len(),
                r@.len() == i,
                forall|j: int| 0 <= j < i ==> r@[j]@ == self.key_seq()[j],
            decreases self.entries@.len() - i,
        {
            r.push(self.entries[i].0.clone());
            i += 1;
        }
        r
    }
}

} // verus!
