use webkv::kv::KvMap;
use webkv::kv_service::{self, KvError};

#[test]
fn put_then_get_returns_value() {
    let mut map = KvMap::new();
    kv_service::put(&mut map, b"key".to_vec(), b"value".to_vec());
    assert_eq!(kv_service::get(&map, &b"key".to_vec()), Ok(b"value".to_vec()));
}

#[test]
fn put_then_get_survives_other_puts() {
    let mut map = KvMap::new();
    kv_service::put(&mut map, b"key".to_vec(), b"value".to_vec());
    kv_service::put(&mut map, b"other".to_vec(), b"thing".to_vec());
    kv_service::put(&mut map, b"another".to_vec(), b"thing".to_vec());
    assert_eq!(kv_service::get(&map, &b"key".to_vec()), Ok(b"value".to_vec()));
}

#[test]
fn get_never_put_is_not_found() {
    let map = KvMap::new();
    assert_eq!(kv_service::get(&map, &b"missing".to_vec()), Err(KvError::NotFound));
}

#[test]
fn get_never_put_is_not_found_after_other_puts() {
    let mut map = KvMap::new();
    kv_service::put(&mut map, b"present".to_vec(), b"v".to_vec());
    assert_eq!(kv_service::get(&map, &b"missing".to_vec()), Err(KvError::NotFound));
}

#[test]
fn second_put_overwrites() {
    let mut map = KvMap::new();
    kv_service::put(&mut map, b"key".to_vec(), b"first".to_vec());
    kv_service::put(&mut map, b"key".to_vec(), b"second".to_vec());
    assert_eq!(kv_service::get(&map, &b"key".to_vec()), Ok(b"second".to_vec()));
}

#[test]
fn puts_on_distinct_keys_all_visible() {
    let mut ab = KvMap::new();
    kv_service::put(&mut ab, b"a".to_vec(), b"1".to_vec());
    kv_service::put(&mut ab, b"b".to_vec(), b"2".to_vec());
    let mut ba = KvMap::new();
    kv_service::put(&mut ba, b"b".to_vec(), b"2".to_vec());
    kv_service::put(&mut ba, b"a".to_vec(), b"1".to_vec());
    for map in [&ab, &ba] {
        assert_eq!(kv_service::get(map, &b"a".to_vec()), Ok(b"1".to_vec()));
        assert_eq!(kv_service::get(map, &b"b".to_vec()), Ok(b"2".to_vec()));
    }
}

#[test]
fn empty_key_and_value_are_valid() {
    let mut map = KvMap::new();
    kv_service::put(&mut map, Vec::new(), Vec::new());
    assert_eq!(kv_service::get(&map, &Vec::new()), Ok(Vec::new()));
}

#[test]
fn example_increments() {
    assert_eq!(kv_service::example(5), 6);
    assert_eq!(kv_service::example(0), 1);
}

#[test]
fn echo_returns_input() {
    assert_eq!(kv_service::echo(String::from("hello")), "hello");
    assert_eq!(kv_service::echo(String::new()), "");
}

#[test]
fn not_found_message() {
    assert_eq!(KvError::NotFound.message(), "Key does not exist.");
}
