use wasmcord::kv::{kv_path, KvError, KvStore};

#[test]
fn new_store_is_empty_at_default_path() {
    let store = KvStore::new(None, None);
    assert_eq!(store.path(), "./data/plugin-kv/kv-store.json");
    assert_eq!(store.get("plugin", "key"), None);
}

#[test]
fn new_store_uses_configured_path() {
    let store = KvStore::new(Some("/data/kv.json".to_string()), Some("/srv".to_string()));
    assert_eq!(store.path(), "/data/kv.json");
}

#[test]
fn kv_path_defaults_and_overrides() {
    assert_eq!(kv_path(None, None), "./data/plugin-kv/kv-store.json");
    assert_eq!(kv_path(None, Some("/srv/data".to_string())), "/srv/data/plugin-kv/kv-store.json");
    assert_eq!(kv_path(Some("x.json".to_string()), None), "x.json");
    assert_eq!(kv_path(Some("x.json".to_string()), Some("/srv".to_string())), "x.json");
}

#[test]
fn get_returns_what_set_stored() {
    let mut store = KvStore::with_path("kv.json".to_string());
    store.set("music".to_string(), "volume".to_string(), vec![1, 2, 3]);
    assert_eq!(store.get("music", "volume"), Some(vec![1, 2, 3]));
    assert_eq!(store.get("music", "queue"), None);
    assert_eq!(store.get("other", "volume"), None);
}

#[test]
fn set_replaces_earlier_value() {
    let mut store = KvStore::with_path("kv.json".to_string());
    store.set("a".to_string(), "k".to_string(), vec![1]);
    store.set("a".to_string(), "k".to_string(), vec![2, 2]);
    assert_eq!(store.get("a", "k"), Some(vec![2, 2]));
}

#[test]
fn scopes_keep_keys_apart() {
    let mut store = KvStore::with_path("kv.json".to_string());
    store.set("a".to_string(), "k".to_string(), vec![1]);
    store.set("b".to_string(), "k".to_string(), vec![2]);
    store.set("a".to_string(), "j".to_string(), vec![3]);
    assert_eq!(store.get("a", "k"), Some(vec![1]));
    assert_eq!(store.get("b", "k"), Some(vec![2]));
    assert_eq!(store.get("a", "j"), Some(vec![3]));
    assert_eq!(store.get("b", "j"), None);
}

#[test]
fn empty_value_is_kept() {
    let mut store = KvStore::with_path("kv.json".to_string());
    store.set("a".to_string(), "".to_string(), vec![]);
    assert_eq!(store.get("a", ""), Some(vec![]));
}

#[test]
fn missing_file_loads_empty_store() {
    let store = KvStore::load_or_default("none.json".to_string(), None).unwrap();
    assert_eq!(store.path(), "none.json");
    assert_eq!(store.get("a", "b"), None);
}

#[test]
fn stored_json_is_read() {
    let bytes = br#"{"ping": {"count": [1, 2]}, "empty": {}}"#.to_vec();
    let store = KvStore::load_or_default("kv.json".to_string(), Some(bytes)).unwrap();
    assert_eq!(store.get("ping", "count"), Some(vec![1, 2]));
    assert_eq!(store.get("empty", "count"), None);
}

#[test]
fn invalid_json_is_refused() {
    let r = KvStore::load_or_default("kv.json".to_string(), Some(b"not json".to_vec()));
    assert_eq!(r.err(), Some(KvError::InvalidJson));
    let r = KvStore::load_or_default("kv.json".to_string(), Some(b"[1, 2]".to_vec()));
    assert_eq!(r.err(), Some(KvError::InvalidJson));
    let r = KvStore::load_or_default("kv.json".to_string(), Some(br#"{"a": {"b": [300]}}"#.to_vec()));
    assert_eq!(r.err(), Some(KvError::InvalidJson));
}

#[test]
fn saved_json_loads_back() {
    let mut store = KvStore::with_path("kv.json".to_string());
    store.set("music".to_string(), "volume".to_string(), vec![7]);
    store.set("music".to_string(), "queue".to_string(), b"song".to_vec());
    store.set("ping".to_string(), "n".to_string(), vec![0, 255]);
    let bytes = store.to_json();
    let back = KvStore::load_or_default("kv.json".to_string(), Some(bytes)).unwrap();
    assert_eq!(back.get("music", "volume"), Some(vec![7]));
    assert_eq!(back.get("music", "queue"), Some(b"song".to_vec()));
    assert_eq!(back.get("ping", "n"), Some(vec![0, 255]));
}

#[test]
fn saved_json_is_pretty_printed_object() {
    let mut store = KvStore::with_path("kv.json".to_string());
    store.set("s".to_string(), "k".to_string(), vec![1]);
    let text = String::from_utf8(store.to_json()).unwrap();
    assert_eq!(text, "{\n  \"s\": {\n    \"k\": [\n      1\n    ]\n  }\n}");
}

#[test]
fn sets_of_different_keys_commute() {
    let mut a = KvStore::with_path("kv.json".to_string());
    a.set("s".to_string(), "x".to_string(), vec![1]);
    a.set("s".to_string(), "y".to_string(), vec![2]);
    let mut b = KvStore::with_path("kv.json".to_string());
    b.set("s".to_string(), "y".to_string(), vec![2]);
    b.set("s".to_string(), "x".to_string(), vec![1]);
    assert_eq!(a.to_json(), b.to_json());
}
