//! Laws of the store, stated over the models that the contracts of `put`,
//! `get` and `handle_request` speak of: the key-to-bytes maps of the cache
//! and the backing store, the listed key order, and the content key.

use vstd::prelude::*;
use crate::digest::sha1_hex_of;
use crate::protocol::lookup_value;
use crate::store::put_keys;

verus! {

/// Determinism of key derivation: the key a put yields depends on the
/// value's bytes alone, so putting the same content always yields the same
/// key.
pub proof fn lemma_key_deterministic(v1: Seq<u8>, v2: Seq<u8>)
    requires
        v1 == v2,
    ensures
        sha1_hex_of(v1) == sha1_hex_of(v2),
{
}

/// Round trip: after a put of `v` fills the cache and the store under the
/// content key of `v`, a get of that key observes `v` again.
pub proof fn lemma_put_get_round_trip(
    cache: Map<Seq<char>, Seq<u8>>,
    store: Map<Seq<char>, Seq<u8>>,
    v: Seq<u8>,
)
    ensures
        lookup_value(
            cache.insert(sha1_hex_of(v), v),
            store.insert(sha1_hex_of(v), v),
            sha1_hex_of(v),
        ) == v,
{
}

/// Idempotence of put: a second put of the same value leaves both the
/// mapping and the listed key order exactly as the first put left them, and
/// a store that held nothing holds exactly one entry afterwards.
pub proof fn lemma_put_idempotent(m: Map<Seq<char>, Seq<u8>>, ks: Seq<Seq<char>>, v: Seq<u8>)
    ensures
        m.insert(sha1_hex_of(v), v).insert(sha1_hex_of(v), v) == m.insert(sha1_hex_of(v), v),
        put_keys(put_keys(ks, sha1_hex_of(v)), sha1_hex_of(v)) == put_keys(ks, sha1_hex_of(v)),
        put_keys(Seq::<Seq<char>>::empty(), sha1_hex_of(v)).len() == 1,
{
    let k = sha1_hex_of(v);
    assert(m.insert(k, v).insert(k, v) =~= m.insert(k, v));
    assert(put_keys(ks, k).contains(k)) by {
        if !ks.contains(k) {
            assert(ks.push(k)[ks.len() as int] == k);
        }
    }
}

} // verus!
