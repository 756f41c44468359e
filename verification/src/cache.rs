//! The content-addressed cache: an in-memory key-to-value mapping mediating
//! every read and write of the backing store. Reads that miss fall through to
//! the store and fill the cache; writes derive the key from the SHA-1 digest
//! of the value, go through to the store first, and then fill the cache.

use vstd::prelude::*;
use vstd::utf8::valid_utf8;
use crate::digest::{is_valid_utf8, sha1_hex, sha1_hex_of};
use crate::store::{put_keys, Store};
use crate::table::Table;

verus! {

/// Why a `put` was refused: the backing store's write path accepts only
/// text, so a value that is not valid UTF-8 cannot be persisted.
#[derive(Clone, Copy, Debug, PartialEq, Eq, Structural)]
pub enum PutError {
    EncodingError,
}

pub struct State {
    cache: Table,
}

impl View for State {
    type V = Map<Seq<char>, Seq<u8>>;

    closed spec fn view(&self) -> Map<Seq<char>, Seq<u8>> {
        self.cache.as_map()
    }
}

impl State {
    /// Well-formed: no key is cached twice.
    pub closed spec fn wf(self) -> bool {
        self.cache.wf()
    }

    /// The write-through invariant: every cached entry is also durable in the
    /// store, with byte-identical content.
    pub open spec fn consistent_with(self, store: Store) -> bool {
        forall|k: Seq<char>|
            #[trigger] self@.contains_key(k) ==> store@.contains_key(k) && store@[k] == self@[k]
    }

    /// A fresh, empty cache.
    pub fn new() -> (s: State)
        ensures
            s.wf(),
            s@ == Map::<Seq<char>, Seq<u8>>::empty(),
    {
        State { cache: Table::new() }
    }

    /// Cache `value` under `key` without touching the store.
    pub fn insert(&mut self, key: String, value: Vec<u8>)
        requires
            old(self).wf(),
        ensures
            final(self).wf(),
            final(self)@ == old(self)@.insert(key@, value@),
    {
        self.cache.insert(key, value);
    }

    /// The cached keys, in insertion order.
    pub closed spec fn key_seq(self) -> Seq<Seq<char>> {
        self.cache.key_seq()
    }

    /// Every cached entry, in insertion order: the snapshot that is
    /// serialized between calls and restored by `insert`.
    pub fn to_pairs(&self) -> (r: Vec<(String, Vec<u8>)>)
        requires
            self.wf(),
        ensures
            r@.len() == self.key_seq().len(),
            forall|i: int|
                0 <= i < r@.len() ==> (#[trigger] r@[i]).0@ == self.key_seq()[i] && self@.contains_key(
                    r@[i].0@,
                ) && r@[i].1@ == self@[r@[i].0@],
            forall|k: Seq<char>| self@.contains_key(k) ==> self.key_seq().contains(k),
    {
        proof {
            self.cache.lemma_domain();
            assert forall|i: int|
                0 <= i < self.cache.entries@.len() implies self.cache.as_map().contains_key(
                self.cache.key_seq()[i],
            ) by {
                self.cache.lemma_entry_index(i);
            }
        }
        self.cache.pairs()
    }

    /// Look `key` up: served from the cache on a hit, otherwise read from the
    /// store and cached on success; absent when neither layer holds the key.
    pub fn get(&mut self, key: &str, store: &Store) -> (r: Option<Vec<u8>>)
        requires
            old(self).wf(),
            store.wf(),
        ensures
            final(self).wf(),
            match r {
                Some(v) => {
                    &&& old(self)@.contains_key(key@) || store@.contains_key(key@)
                    &&& v@ == if old(self)@.contains_key(key@) {
                        old(self)@[key@]
                    } else {
                        store@[key@]
                    }
                    &&& final(self)@ == old(self)@.insert(key@, v@)
                    &&& old(self)@.contains_key(key@) ==> final(self)@ == old(self)@
                },
                None => {
                    &&& !old(self)@.contains_key(key@)
                    &&& !store@.contains_key(key@)
                    &&& final(self)@ == old(self)@
                },
            },
            old(self).consistent_with(*store) ==> final(self).consistent_with(*store),
    {
        let owned = key.to_owned();
        match self.cache.lookup(&owned) {
            Some(v) => {
                proof {
                    assert(final(self)@ =~= old(self)@.insert(key@, v@));
                }
                Some(v)
            },
            None => {
                match store.read(key) {
                    Some(v) => {
                        let ghost pre = *self;
                        let copy = vstd::slice::slice_to_vec(v.as_slice());
                        self.cache.insert(owned, copy);
                        proof {
                            assert(final(self)@ == pre@.insert(key@, v@));
                            if pre.consistent_with(*store) {
                                assert forall|k: Seq<char>|
                                    final(self)@.contains_key(k) implies store@.contains_key(k)
                                    && store@[k] == final(self)@[k] by {
                                    if k != key@ {
                                        assert(pre@.contains_key(k));
                                    }
                                }
                            }
                        }
                        Some(v)
                    },
                    None => None,
                }
            },
        }
    }

    /// Store `value` under the key derived from its content: the lowercase
    /// hex SHA-1 digest of its bytes. The write goes through to the store
    /// first and the cache is filled after it; a value that is not valid
    /// UTF-8 is refused and leaves both layers untouched.
    pub fn put(&mut self, value: Vec<u8>, store: &mut Store) -> (r: Result<String, PutError>)
        requires
            old(self).wf(),
            old(store).wf(),
        ensures
            final(self).wf(),
            final(store).wf(),
            match r {
                Ok(key) => {
                    &&& valid_utf8(value@)
                    &&& key@ == sha1_hex_of(value@)
                    &&& final(store)@ == old(store)@.insert(key@, value@)
                    &&& final(store).key_seq() == put_keys(old(store).key_seq(), key@)
                    &&& final(self)@ == old(self)@.insert(key@, value@)
                },
                Err(e) => {
                    &&& e == PutError::EncodingError
                    &&& !valid_utf8(value@)
                    &&& final(self)@ == old(self)@
                    &&& final(store)@ == old(store)@
                    &&& final(store).key_seq() == old(store).key_seq()
                },
            },
            old(self).consistent_with(*old(store)) ==> final(self).consistent_with(*final(store)),
    {
        if !is_valid_utf8(&value) {
            return Err(PutError::EncodingError);
        }
        let key = sha1_hex(&value);
        let copy = vstd::slice::slice_to_vec(value.as_slice());
        store.write(key.clone(), copy);
        self.cache.insert(key.clone(), value);
        proof {
            if old(self).consistent_with(*old(store)) {
                assert forall|k: Seq<char>|
                    final(self)@.contains_key(k) implies final(store)@.contains_key(k)
                    && final(store)@[k] == final(self)@[k] by {
                    if k != key@ {
                        assert(old(self)@.contains_key(k));
                        assert(old(store)@.contains_key(k));
                    }
                }
            }
        }
        Ok(key)
    }
}

} // verus!
