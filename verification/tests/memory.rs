use kvstore::storage::{InMemStorage, Storage, StorageOptions};

#[test]
fn test_open() {
    let mut storage = InMemStorage::new();
    let can_open = storage.open(String::from("dummy"), StorageOptions {});
    assert!(can_open.is_ok());
}

#[test]
fn memory_test_set_get() {
    let mut storage = InMemStorage::new();
    let _ = storage.open(String::from("dummy"), StorageOptions {});
    let can_set = storage.set(String::from("a"), String::from("b"));
    assert!(can_set.is_ok());
    let value = storage.get(&String::from("a")).unwrap();
    assert_eq!(value.unwrap(), &String::from("b"));
}

#[test]
fn memory_test_unset() {
    let mut storage = InMemStorage::new();
    let _ = storage.open(String::from("dummy"), StorageOptions {});
    let can_set = storage.set(String::from("a"), String::from("b"));
    assert!(can_set.is_ok());
    let value = storage.unset(&String::from("a")).unwrap();
    assert_eq!(value.unwrap(), String::from("b"));

    let v = storage.get(&String::from("a")).unwrap();
    assert!(!v.is_some());
}

#[test]
fn memory_test_get_on_a_new_engine() {
    let storage = InMemStorage::new();
    assert!(storage.get(&String::from("a")).unwrap().is_none());
    assert!(storage.get(&String::new()).unwrap().is_none());
}

#[test]
fn memory_test_set_replaces() {
    let mut storage = InMemStorage::new();
    assert!(storage.set(String::from("a"), String::from("1")).is_ok());
    assert!(storage.set(String::from("b"), String::from("2")).is_ok());
    assert!(storage.set(String::from("a"), String::from("3")).is_ok());
    assert_eq!(storage.get(&String::from("a")).unwrap(), Some(&String::from("3")));
    assert_eq!(storage.get(&String::from("b")).unwrap(), Some(&String::from("2")));
}

#[test]
fn memory_test_unset_of_an_absent_key() {
    let mut storage = InMemStorage::new();
    assert_eq!(storage.unset(&String::from("a")).unwrap(), None);
    assert!(storage.set(String::from("b"), String::from("2")).is_ok());
    assert_eq!(storage.unset(&String::from("a")).unwrap(), None);
    assert_eq!(storage.unset(&String::from("a")).unwrap(), None);
    assert_eq!(storage.get(&String::from("b")).unwrap(), Some(&String::from("2")));
}

#[test]
fn memory_test_open_keeps_the_table() {
    let mut storage = InMemStorage::new();
    assert!(storage.set(String::from("a"), String::from("b")).is_ok());
    assert!(storage.open(String::from("elsewhere"), StorageOptions {}).is_ok());
    assert_eq!(storage.get(&String::from("a")).unwrap(), Some(&String::from("b")));
}

#[test]
fn memory_test_close() {
    let mut storage = InMemStorage::new();
    assert!(storage.set(String::from("a"), String::from("b")).is_ok());
    assert!(storage.close().is_ok());
}
