//! The request protocol: a tagged request naming one of the three operations
//! (get, put, list-all), a tagged response carrying either the operation's
//! data or an error message, and the dispatcher that runs one request
//! against the cache and the backing store.

use vstd::prelude::*;
use vstd::utf8::valid_utf8;
use crate::cache::State;
use crate::digest::sha1_hex_of;
use crate::store::{put_keys, Store};

verus! {

/// A request envelope: the tag is informational, the payload names the
/// operation.
pub struct Request {
    pub _type: String,
    pub data: Action,
}

/// The three operations the store answers.
pub enum Action {
    Get(String),
    Put(Vec<u8>),
    All(()),
}

#[derive(Debug)]
pub struct PutResponse {
    pub key: String,
}

#[derive(Debug)]
pub struct GetResponse {
    pub key: String,
    pub value: Vec<u8>,
}

#[derive(Debug)]
pub struct AllResponse {
    pub data: Vec<GetResponse>,
}

#[derive(Debug)]
pub enum ResponseData {
    Put(PutResponse),
    Get(GetResponse),
    All(AllResponse),
    Error(String),
}

/// A response envelope: a status discriminator and the operation's payload,
/// or an error message.
#[derive(Debug)]
pub struct Response {
    pub status: String,
    pub data: ResponseData,
}

/// The value a lookup observes for `k`: the cached bytes when the cache
/// holds the key, the durable bytes otherwise.
pub open spec fn lookup_value(
    cache: Map<Seq<char>, Seq<u8>>,
    store: Map<Seq<char>, Seq<u8>>,
    k: Seq<char>,
) -> Seq<u8> {
    if cache.contains_key(k) {
        cache[k]
    } else {
        store[k]
    }
}

/// The response the dispatcher owes to a request whose operation tag it does
/// not know; with the three-way `Action` this is never reached from
/// `handle_request`, but an envelope with an unrecognized tag is answered
/// with it.
pub fn unknown_request_response() -> (r: Response)
    ensures
        r.status@ == "error"@,
        r.data matches ResponseData::Error(m) && m@ == "Unknown request type"@,
{
    Response {
        status: "error".to_owned(),
        data: ResponseData::Error("Unknown request type".to_owned()),
    }
}

/// Decode one request into its operation, run it against the cache and the
/// backing store, and encode the typed response.
pub fn handle_request(state: &mut State, store: &mut Store, request: Request) -> (r: Response)
    requires
        old(state).wf(),
        old(store).wf(),
    ensures
        final(state).wf(),
        final(store).wf(),
        old(state).consistent_with(*old(store)) ==> final(state).consistent_with(*final(store)),
        match request.data {
            Action::Get(key) => {
                &&& final(store)@ == old(store)@
                &&& final(store).key_seq() == old(store).key_seq()
                &&& (old(state)@.contains_key(key@) || old(store)@.contains_key(key@)) ==> {
                    &&& r.status@ == "ok"@
                    &&& r.data matches ResponseData::Get(g) && g.key@ == key@ && g.value@
                        == lookup_value(old(state)@, old(store)@, key@)
                    &&& final(state)@ == old(state)@.insert(
                        key@,
                        lookup_value(old(state)@, old(store)@, key@),
                    )
                }
                &&& !(old(state)@.contains_key(key@) || old(store)@.contains_key(key@)) ==> {
                    &&& r.status@ == "error"@
                    &&& r.data matches ResponseData::Error(m) && m@ == "Key not found"@
                    &&& final(state)@ == old(state)@
                }
            },
            Action::Put(value) => {
                &&& valid_utf8(value@) ==> {
                    &&& r.status@ == "ok"@
                    &&& r.data matches ResponseData::Put(p) && p.key@ == sha1_hex_of(value@)
                    &&& final(store)@ == old(store)@.insert(sha1_hex_of(value@), value@)
                    &&& final(store).key_seq() == put_keys(
                        old(store).key_seq(),
                        sha1_hex_of(value@),
                    )
                    &&& final(state)@ == old(state)@.insert(sha1_hex_of(value@), value@)
                }
                &&& !valid_utf8(value@) ==> {
                    &&& r.status@ == "error"@
                    &&& r.data matches ResponseData::Error(m) && m@
                        == "Value is not valid UTF-8"@
                    &&& final(store)@ == old(store)@
                    &&& final(store).key_seq() == old(store).key_seq()
                    &&& final(state)@ == old(state)@
                }
            },
            Action::All(_) => {
                &&& final(store)@ == old(store)@
                &&& final(store).key_seq() == old(store).key_seq()
                &&& r.status@ == "ok"@
                &&& r.data matches ResponseData::All(a) && {
                    &&& a.data@.len() == old(store).key_seq().len()
                    &&& forall|i: int|
                        0 <= i < a.data@.len() ==> (#[trigger] a.data@[i]).key@
                            == old(store).key_seq()[i] && a.data@[i].value@ == lookup_value(
                            old(state)@,
                            old(store)@,
                            old(store).key_seq()[i],
                        )
                }
                &&& forall|k: Seq<char>|
                    #[trigger] old(state)@.contains_key(k) ==> final(state)@.contains_key(k)
                        && final(state)@[k] == old(state)@[k]
                &&& forall|k: Seq<char>|
                    #[trigger] final(state)@.contains_key(k) ==> old(state)@.contains_key(k)
                        || old(store)@.contains_key(k)
            },
        },
{
    match request.data {
        Action::Get(key) => {
            match state.get(key.as_str(), store) {
                Some(value) => Response {
                    status: "ok".to_owned(),
                    data: ResponseData::Get(GetResponse { key, value }),
                },
                None => Response {
                    status: "error".to_owned(),
                    data: ResponseData::Error("Key not found".to_owned()),
                },
            }
        },
        Action::Put(value) => {
            match state.put(value, store) {
                Ok(key) => Response {
                    status: "ok".to_owned(),
                    data: ResponseData::Put(PutResponse { key }),
                },
                Err(_) => Response {
                    status: "error".to_owned(),
                    data: ResponseData::Error("Value is not valid UTF-8".to_owned()),
                },
            }
        },
        Action::All(_) => {
            let keys = store.list();
            let mut data: Vec<GetResponse> = Vec::new();
            let mut idx: usize = 0;
            proof {
                store.lemma_keys();
            }
            while idx < keys.len()
                invariant
                    idx <= keys@.len(),
                    keys@.len() == store.key_seq().len(),
                    forall|i: int| 0 <= i < keys@.len() ==> keys@[i]@ == store.key_seq()[i],
                    store.wf(),
                    state.wf(),
                    forall|k: Seq<char>|
                        #[trigger] old(state)@.contains_key(k) ==> state@.contains_key(k)
                            && state@[k] == old(state)@[k],
                    forall|k: Seq<char>|
                        #[trigger] state@.contains_key(k) ==> old(state)@.contains_key(k)
                            || exists|j: int|
                            0 <= j < idx && (#[trigger] store.key_seq()[j]) == k,
                    old(state).consistent_with(*store) ==> state.consistent_with(*store),
                    data@.len() == idx,
                    forall|i: int|
                        0 <= i < idx ==> (#[trigger] data@[i]).key@ == store.key_seq()[i]
                            && data@[i].value@ == lookup_value(
                            old(state)@,
                            store@,
                            store.key_seq()[i],
                        ),
                decreases keys@.len() - idx,
            {
                proof {
                    store.lemma_keys();
                }
                let ghost k = store.key_seq()[idx as int];
                let ghost pre_loop_state = *state;
                proof {
                    assert(store.key_seq().contains(k)) by {
                        assert(store.key_seq()[idx as int] == k);
                    }
                    assert(store@.contains_key(k));
                    if !old(state)@.contains_key(k) && pre_loop_state@.contains_key(k) {
                        let j = choose|j: int|
                            0 <= j < idx && (#[trigger] store.key_seq()[j]) == k;
                        assert(store.key_seq()[j] == k);
                        assert(false);
                    }
                }
                match state.get(keys[idx].as_str(), store) {
                    Some(value) => {
                        proof {
                            assert(value@ == lookup_value(old(state)@, store@, k)) by {
                                if old(state)@.contains_key(k) {
                                    assert(pre_loop_state@[k] == old(state)@[k]);
                                }
                            }
                        }
                        let key = keys[idx].clone();
                        data.push(GetResponse { key, value });
                    },
                    None => {
                        proof {
                            assert(false);
                        }
                    },
                }
                idx += 1;
                proof {
                    assert forall|k2: Seq<char>|
                        #[trigger] state@.contains_key(k2) implies old(state)@.contains_key(k2)
                        || exists|j: int|
                        0 <= j < idx && (#[trigger] store.key_seq()[j]) == k2 by {
                        if !old(state)@.contains_key(k2) {
                            if pre_loop_state@.contains_key(k2) {
                                let j = choose|j: int|
                                    0 <= j < idx - 1 && (#[trigger] store.key_seq()[j]) == k2;
                                assert(0 <= j < idx && store.key_seq()[j] == k2);
                            } else {
                                assert(k2 == k);
                                assert(store.key_seq()[idx - 1] == k2);
                            }
                        }
                    }
                }
            }
            proof {
                store.lemma_keys();
                assert forall|k: Seq<char>|
                    #[trigger] state@.contains_key(k) implies old(state)@.contains_key(k)
                    || store@.contains_key(k) by {
                    if !old(state)@.contains_key(k) {
                        let j = choose|j: int|
                            0 <= j < idx && (#[trigger] store.key_seq()[j]) == k;
                        assert(store.key_seq().contains(k)) by {
                            assert(store.key_seq()[j] == k);
                        }
                    }
                }
            }
            Response { status: "ok".to_owned(), data: ResponseData::All(AllResponse { data }) }
        },
    }
}

} // verus!
