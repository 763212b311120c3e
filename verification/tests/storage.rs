use redis_lite::resp::RESP;
use redis_lite::set::{KeyExistence, KeyExpiry, SetArgs};
use redis_lite::storage::{Storage, StorageDate, StorageValue};
use redis_lite::storage_result::StorageError;
use std::time::{SystemTime, UNIX_EPOCH};

fn now_nanos() -> i128 {
    SystemTime::now().duration_since(UNIX_EPOCH).unwrap().as_nanos() as i128
}

#[test]
fn test_storage_date_eq() {
    let storage: Storage = Storage::new();
    assert!(storage.store_len() == 0);
    assert_eq!(storage.expiry_len(), 0);
    assert_eq!(storage.expiry_len(), 0);
    assert!(storage.active_expire());
}

#[test]
// Test that the function expire_keys removes
// keys that have an expiry time in the past.
fn test_expire_keys() {
    let mut storage: Storage = Storage::new();

    storage
        .set(String::from("akey"), String::from("avalue"), SetArgs::new())
        .unwrap();

    storage.put_deadline(String::from("akey"), now_nanos() - 5_000_000_000);

    storage.expire_keys();
    assert_eq!(storage.store_len(), 0);
}

#[test]
// Test that the function expire_keys doesn't remove
// keys that have an expiry time in the past
// if active expiry is turned off.
fn test_expire_keys_deactivated() {
    let mut storage: Storage = Storage::new();
    storage.set_active_expire(false);

    storage
        .set(String::from("akey"), String::from("avalue"), SetArgs::new())
        .unwrap();

    storage.put_deadline(String::from("akey"), now_nanos() - 5_000_000_000);

    storage.expire_keys();
    assert_eq!(storage.store_len(), 1);
}

#[test]
// Test that get() performs passive expiration.
fn test_get_passive_expire() {
    let mut storage: Storage = Storage::new();

    storage
        .set(String::from("akey"), String::from("avalue"), SetArgs::new())
        .unwrap();

    storage.put_deadline(String::from("akey"), now_nanos() - 5_000_000_000);

    let value = storage.get(String::from("akey")).unwrap();
    assert_eq!(value, None);
    assert_eq!(storage.store_len(), 0);
    assert_eq!(storage.expiry_len(), 0);
}

// ---------------------------------------------------------------------------
// Further cases
// ---------------------------------------------------------------------------

fn args(expiry: Option<KeyExpiry>, existence: Option<KeyExistence>) -> SetArgs {
    SetArgs { expiry, existence, get: false }
}

#[test]
fn get_after_set_returns_the_value() {
    let mut storage = Storage::new();
    let r = storage.set_at(String::from("k"), String::from("v"), SetArgs::new(), 1_000).unwrap();
    assert_eq!(r, Some(String::from("OK")));
    assert_eq!(storage.get_at(String::from("k"), 2_000).unwrap(), Some(String::from("v")));
    assert_eq!(storage.get_at(String::from("other"), 2_000).unwrap(), None);
}

#[test]
fn ex_and_px_set_deadlines_in_nanoseconds() {
    let mut storage = Storage::new();
    storage.set_at(String::from("a"), String::from("1"), args(Some(KeyExpiry::EX(2)), None), 0).unwrap();
    storage.set_at(String::from("b"), String::from("2"), args(Some(KeyExpiry::PX(5)), None), 0).unwrap();
    assert_eq!(storage.expiry_len(), 2);
    // b expires at 5 ms, a at 2 s
    assert_eq!(storage.get_at(String::from("b"), 4_999_999).unwrap(), Some(String::from("2")));
    assert_eq!(storage.get_at(String::from("b"), 5_000_000).unwrap(), None);
    assert_eq!(storage.get_at(String::from("a"), 1_999_999_999).unwrap(), Some(String::from("1")));
    storage.expire_keys_at(2_000_000_000);
    assert_eq!(storage.store_len(), 0);
    assert_eq!(storage.expiry_len(), 0);
}

#[test]
fn set_without_expiry_clears_the_deadline() {
    let mut storage = Storage::new();
    storage.set_at(String::from("a"), String::from("1"), args(Some(KeyExpiry::EX(1)), None), 0).unwrap();
    storage.set_at(String::from("a"), String::from("2"), SetArgs::new(), 10).unwrap();
    assert_eq!(storage.expiry_len(), 0);
    assert_eq!(storage.get_at(String::from("a"), i128::MAX).unwrap(), Some(String::from("2")));
}

#[test]
fn keys_set_before_the_epoch_expire_on_time() {
    let mut storage = Storage::new();
    let before_epoch: i128 = -10_000_000_000;
    storage.set_at(String::from("a"), String::from("1"), args(Some(KeyExpiry::EX(1)), None), before_epoch).unwrap();
    assert_eq!(storage.get_at(String::from("a"), before_epoch + 999_999_999).unwrap(), Some(String::from("1")));
    storage.expire_keys_at(before_epoch + 999_999_999);
    assert_eq!(storage.store_len(), 1);
    storage.expire_keys_at(before_epoch + 1_000_000_000);
    assert_eq!(storage.store_len(), 0);
    assert_eq!(storage.expiry_len(), 0);
}

#[test]
fn nx_and_xx() {
    let mut storage = Storage::new();
    let r = storage.set_at(String::from("a"), String::from("1"), args(None, Some(KeyExistence::XX)), 0).unwrap();
    assert_eq!(r, None);
    assert_eq!(storage.store_len(), 0);
    let r = storage.set_at(String::from("a"), String::from("1"), args(None, Some(KeyExistence::NX)), 0).unwrap();
    assert_eq!(r, Some(String::from("OK")));
    let r = storage.set_at(String::from("a"), String::from("2"), args(None, Some(KeyExistence::NX)), 0).unwrap();
    assert_eq!(r, None);
    assert_eq!(storage.get_at(String::from("a"), 0).unwrap(), Some(String::from("1")));
    let r = storage.set_at(String::from("a"), String::from("3"), args(None, Some(KeyExistence::XX)), 0).unwrap();
    assert_eq!(r, Some(String::from("OK")));
    assert_eq!(storage.get_at(String::from("a"), 0).unwrap(), Some(String::from("3")));
}

#[test]
fn nx_succeeds_on_an_expired_key() {
    let mut storage = Storage::new();
    storage.set_at(String::from("a"), String::from("1"), args(Some(KeyExpiry::PX(1)), None), 0).unwrap();
    let r = storage.set_at(String::from("a"), String::from("2"), args(None, Some(KeyExistence::NX)), 1_000_000).unwrap();
    assert_eq!(r, Some(String::from("OK")));
    assert_eq!(storage.get_at(String::from("a"), 1_000_000).unwrap(), Some(String::from("2")));
}

#[test]
fn expire_keeps_live_keys() {
    let mut storage = Storage::new();
    storage.set_at(String::from("a"), String::from("1"), args(Some(KeyExpiry::PX(1)), None), 0).unwrap();
    storage.set_at(String::from("b"), String::from("2"), args(Some(KeyExpiry::PX(10)), None), 0).unwrap();
    storage.set_at(String::from("c"), String::from("3"), SetArgs::new(), 0).unwrap();
    storage.expire_keys_at(5_000_000);
    assert_eq!(storage.store_len(), 2);
    assert_eq!(storage.expiry_len(), 1);
    assert_eq!(storage.get_at(String::from("b"), 5_000_000).unwrap(), Some(String::from("2")));
    assert_eq!(storage.get_at(String::from("c"), 5_000_000).unwrap(), Some(String::from("3")));
}

fn command(w: &[&str]) -> Vec<String> {
    w.iter().map(|s| s.to_string()).collect()
}

#[test]
fn process_command_replies() {
    let mut storage = Storage::new();
    assert_eq!(
        storage.process_command_at(command(&["PING"]), 0).unwrap(),
        RESP::SimpleString(String::from("PONG"))
    );
    assert_eq!(
        storage.process_command_at(command(&["echo", "hi"]), 0).unwrap(),
        RESP::SimpleString(String::from("hi"))
    );
    assert_eq!(
        storage.process_command_at(command(&["info"]), 0).unwrap(),
        RESP::BulkString(String::from("# Server\r\nredis_version:7.0.0\r\n"))
    );
    assert_eq!(
        storage.process_command_at(command(&["QUIT"]), 0).unwrap(),
        RESP::SimpleString(String::from("OK"))
    );
    assert_eq!(
        storage.process_command_at(command(&["set", "k", "v", "nx"]), 0).unwrap(),
        RESP::SimpleString(String::from("OK"))
    );
    assert_eq!(
        storage.process_command_at(command(&["SET", "k", "w", "NX"]), 0).unwrap(),
        RESP::Null
    );
    assert_eq!(
        storage.process_command_at(command(&["Get", "k"]), 0).unwrap(),
        RESP::BulkString(String::from("v"))
    );
    assert_eq!(storage.process_command_at(command(&["get", "x"]), 0).unwrap(), RESP::Null);
    assert!(matches!(
        storage.process_command_at(command(&["get"]), 0),
        Err(StorageError::IncorrectRequest)
    ));
    assert!(matches!(
        storage.process_command_at(command(&["set", "k"]), 0),
        Err(StorageError::IncorrectRequest)
    ));
    match storage.process_command_at(command(&["set", "k", "v", "bogus"]), 0) {
        Err(StorageError::CommandSyntaxError(s)) => assert_eq!(s, "bogus"),
        other => panic!("{:?}", other),
    }
    match storage.process_command_at(command(&["FLUSHALL"]), 0) {
        Err(StorageError::CommandNotAvaliable(s)) => assert_eq!(s, "FLUSHALL"),
        other => panic!("{:?}", other),
    }
    assert_eq!(storage.process_command(command(&["ping"])).unwrap(), RESP::SimpleString(String::from("PONG")));
}

#[test]
fn storage_error_messages() {
    assert_eq!(StorageError::IncorrectRequest.to_string(), "IncorrectRequest");
    assert_eq!(
        StorageError::CommandNotAvaliable(String::from("x")).to_string(),
        "CommandNotAvaliable: x"
    );
}

#[test]
fn storage_dates_compare_by_value_and_lifetime() {
    let a = StorageDate { value: StorageValue::String(String::from("v")), creation_time: 1, expiry: None };
    let b = StorageDate { value: StorageValue::String(String::from("v")), creation_time: 2, expiry: None };
    let mut c = StorageDate::created(String::from("v"), 1);
    assert!(a == b);
    c.add_expiry(5);
    assert!(a != c);
    assert_eq!(c.expiry, Some(5));
}
