use content_store::cache::{PutError, State};
use content_store::protocol::{
    handle_request, unknown_request_response, Action, Request, Response, ResponseData,
};
use content_store::store::Store;

const HELLO_KEY: &str = "aaf4c61ddcc5e8a2dabede0f3b482cd9aea9434d";
const EMPTY_KEY: &str = "da39a3ee5e6b4b0d3255bfef95601890afd80709";

fn request(data: Action) -> Request {
    Request {
        _type: "request".to_string(),
        data,
    }
}

#[test]
fn put_is_deterministic() {
    let mut state_a = State::new();
    let mut store_a = Store::new();
    let mut state_b = State::new();
    let mut store_b = Store::new();
    let key_a = state_a.put(b"same content".to_vec(), &mut store_a).unwrap();
    let key_b = state_b.put(b"same content".to_vec(), &mut store_b).unwrap();
    assert_eq!(key_a, key_b);
    let key_again = state_a.put(b"same content".to_vec(), &mut store_a).unwrap();
    assert_eq!(key_a, key_again);
}

#[test]
fn put_key_is_hex_sha1_of_content() {
    let mut state = State::new();
    let mut store = Store::new();
    let key = state.put(b"hello".to_vec(), &mut store).unwrap();
    assert_eq!(key, HELLO_KEY);
    assert_eq!(key.len(), 40);
}

#[test]
fn put_of_empty_value() {
    let mut state = State::new();
    let mut store = Store::new();
    let key = state.put(Vec::new(), &mut store).unwrap();
    assert_eq!(key, EMPTY_KEY);
    assert_eq!(state.get(&key, &store), Some(Vec::new()));
}

#[test]
fn get_after_put_round_trips() {
    let mut state = State::new();
    let mut store = Store::new();
    let value = b"hello world".to_vec();
    let key = state.put(value.clone(), &mut store).unwrap();
    assert_eq!(state.get(&key, &store), Some(value));
}

#[test]
fn put_twice_leaves_one_entry() {
    let mut state = State::new();
    let mut store = Store::new();
    let key1 = state.put(b"once".to_vec(), &mut store).unwrap();
    let key2 = state.put(b"once".to_vec(), &mut store).unwrap();
    assert_eq!(key1, key2);
    assert_eq!(store.list(), vec![key1]);
}

#[test]
fn get_fills_cache_on_miss() {
    let mut writer = State::new();
    let mut store = Store::new();
    let value = b"durable bytes".to_vec();
    let key = writer.put(value.clone(), &mut store).unwrap();

    // A fresh cache knows nothing; the first get falls through to the store.
    let mut reader = State::new();
    assert_eq!(reader.get(&key, &store), Some(value.clone()));

    // The second get is served from the cache: even a store that has lost
    // every entry cannot make it miss.
    let empty = Store::new();
    assert_eq!(reader.get(&key, &empty), Some(value));

    // Without the fill, the same key misses against the empty store.
    let mut cold = State::new();
    assert_eq!(cold.get(&key, &empty), None);
}

#[test]
fn get_of_unknown_key_is_absent() {
    let mut state = State::new();
    let store = Store::new();
    assert_eq!(state.get("nonexistent-key", &store), None);
}

#[test]
fn put_rejects_bytes_that_are_not_text() {
    let mut state = State::new();
    let mut store = Store::new();
    let result = state.put(vec![0xff, 0xfe, 0x01], &mut store);
    assert_eq!(result, Err(PutError::EncodingError));
    assert!(store.list().is_empty());
    assert_eq!(state.get("anything", &store), None);
}

#[test]
fn store_write_overwrites_and_lists_in_insertion_order() {
    let mut store = Store::new();
    store.write("k1".to_string(), b"one".to_vec());
    store.write("k2".to_string(), b"two".to_vec());
    store.write("k1".to_string(), b"first again".to_vec());
    assert_eq!(store.list(), vec!["k1".to_string(), "k2".to_string()]);
    assert_eq!(store.read("k1"), Some(b"first again".to_vec()));
    assert_eq!(store.read("k2"), Some(b"two".to_vec()));
    assert_eq!(store.read("k3"), None);
}

#[test]
fn dispatch_put_then_get() {
    let mut state = State::new();
    let mut store = Store::new();

    let put = handle_request(&mut state, &mut store, request(Action::Put(b"hello".to_vec())));
    assert_eq!(put.status, "ok");
    let key = match put.data {
        ResponseData::Put(p) => p.key,
        other => panic!("expected a put response, got {:?}", other),
    };
    assert_eq!(key, HELLO_KEY);

    let get = handle_request(&mut state, &mut store, request(Action::Get(key.clone())));
    assert_eq!(get.status, "ok");
    match get.data {
        ResponseData::Get(g) => {
            assert_eq!(g.key, key);
            assert_eq!(g.value, b"hello".to_vec());
        }
        other => panic!("expected a get response, got {:?}", other),
    }
}

#[test]
fn dispatch_get_of_missing_key_reports_not_found() {
    let mut state = State::new();
    let mut store = Store::new();
    let resp = handle_request(
        &mut state,
        &mut store,
        request(Action::Get("deadbeef".to_string())),
    );
    assert_eq!(resp.status, "error");
    match resp.data {
        ResponseData::Error(m) => assert_eq!(m, "Key not found"),
        other => panic!("expected an error response, got {:?}", other),
    }
}

#[test]
fn dispatch_put_of_non_text_reports_error() {
    let mut state = State::new();
    let mut store = Store::new();
    let resp = handle_request(
        &mut state,
        &mut store,
        request(Action::Put(vec![0x80, 0x80])),
    );
    assert_eq!(resp.status, "error");
    match resp.data {
        ResponseData::Error(m) => assert_eq!(m, "Value is not valid UTF-8"),
        other => panic!("expected an error response, got {:?}", other),
    }
    assert!(store.list().is_empty());
}

#[test]
fn dispatch_list_all_returns_every_pair() {
    let mut state = State::new();
    let mut store = Store::new();
    let values: Vec<Vec<u8>> = vec![b"v1".to_vec(), b"v2".to_vec(), b"v3".to_vec()];
    let mut expected: Vec<(String, Vec<u8>)> = Vec::new();
    for value in &values {
        let key = state.put(value.clone(), &mut store).unwrap();
        expected.push((key, value.clone()));
    }

    // Enumerate through a fresh cache, as a later call with replayed state
    // would, so every pair comes from the backing store.
    let mut reader = State::new();
    let resp = handle_request(&mut reader, &mut store, request(Action::All(())));
    assert_eq!(resp.status, "ok");
    let mut listed: Vec<(String, Vec<u8>)> = match resp.data {
        ResponseData::All(all) => all.data.into_iter().map(|g| (g.key, g.value)).collect(),
        other => panic!("expected a list response, got {:?}", other),
    };
    listed.sort();
    expected.sort();
    assert_eq!(listed, expected);
}

#[test]
fn scenario_hello() {
    let mut state = State::new();
    let mut store = Store::new();
    let key = state.put(b"hello".to_vec(), &mut store).unwrap();
    assert_eq!(key, HELLO_KEY);
    assert_eq!(state.get(HELLO_KEY, &store), Some(b"hello".to_vec()));
    assert_eq!(state.get("deadbeef", &store), None);
}

#[test]
fn unknown_request_tag_is_reported() {
    let resp: Response = unknown_request_response();
    assert_eq!(resp.status, "error");
    match resp.data {
        ResponseData::Error(m) => assert_eq!(m, "Unknown request type"),
        other => panic!("expected an error response, got {:?}", other),
    }
}
