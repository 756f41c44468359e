//! The durable backing store: a key-to-bytes persistence layer. Its view is
//! the map of stored entries; `key_seq` is the order in which `list` reports
//! the keys. Reads never fail on a present key, writes overwrite, and
//! listing returns every key once.

use vstd::prelude::*;
use crate::table::Table;

pub use crate::table::put_keys;

verus! {

pub struct Store {
    table: Table,
}

impl View for Store {
    type V = Map<Seq<char>, Seq<u8>>;

    closed spec fn view(&self) -> Map<Seq<char>, Seq<u8>> {
        self.table.as_map()
    }
}

impl Store {
    /// The stored keys, in the order `list` reports them.
    pub closed spec fn key_seq(self) -> Seq<Seq<char>> {
        self.table.key_seq()
    }

    /// Well-formed: no key is stored twice.
    pub closed spec fn wf(self) -> bool {
        self.table.wf()
    }

    /// A well-formed store lists each stored key exactly once.
    pub proof fn lemma_keys(self)
        requires
            self.wf(),
        ensures
            forall|k: Seq<char>| self@.contains_key(k) <==> self.key_seq().contains(k),
            forall|i: int, j: int|
                0 <= i < j < self.key_seq().len() ==> self.key_seq()[i] != self.key_seq()[j],
    {
        self.table.lemma_domain();
        assert forall|i: int, j: int|
            0 <= i < j < self.key_seq().len() implies self.key_seq()[i]
            != self.key_seq()[j] by {
            assert(self.key_seq()[i] == self.table.entries@[i].0@);
            assert(self.key_seq()[j] == self.table.entries@[j].0@);
        }
    }

    /// An empty store.
    pub fn new() -> (s: Store)
        ensures
            s.wf(),
            s@ == Map::<Seq<char>, Seq<u8>>::empty(),
            s.key_seq() == Seq::<Seq<char>>::empty(),
    {
        Store { table: Table::new() }
    }

    /// The bytes stored under `key`, or absent when no entry holds it.
    pub fn read(&self, key: &str) -> (r: Option<Vec<u8>>)
        requires
            self.wf(),
        ensures
            match r {
                Some(v) => self@.contains_key(key@) && v@ == self@[key@],
                None => !self@.contains_key(key@),
            },
    {
        self.table.lookup(&key.to_owned())
    }

    /// Store `value` durably under `key`, overwriting any prior entry.
    pub fn write(&mut self, key: String, value: Vec<u8>)
        requires
            old(self).wf(),
        ensures
            final(self).wf(),
            final(self)@ == old(self)@.insert(key@, value@),
            final(self).key_seq() == put_keys(old(self).key_seq(), key@),
    {
        self.table.insert(key, value);
    }

    /// Every stored key, in insertion order.
    pub fn list(&self) -> (r: Vec<String>)
        ensures
            r@.len() == self.key_seq().len(),
            forall|i: int| 0 <= i < r@.len() ==> r@[i]@ == self.key_seq()[i],
    {
        self.table.keys()
    }
}

} // verus!
