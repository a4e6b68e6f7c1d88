use arrus::connection_manager::{ConnectionManager, HashMapConnectionManager};

#[derive(Clone, Debug, PartialEq)]
struct TestConnection {
    name: String,
}

#[test]
fn test_basic_operations() {
    let mut manager = HashMapConnectionManager::new();
    let conn = TestConnection { name: "test".to_string() };

    manager.insert(1, conn.clone());
    assert_eq!(manager.remove(1), Some(conn));
    assert_eq!(manager.remove(1), None);
}

#[test]
fn insert_replaces_and_remove_gives_back_the_last() {
    let mut manager: HashMapConnectionManager<u32> = HashMapConnectionManager::default();
    manager.insert(7, 1);
    manager.insert(7, 2);
    manager.insert(8, 3);
    assert_eq!(manager.remove(7), Some(2));
    assert_eq!(manager.remove(8), Some(3));
    assert_eq!(manager.remove(9), None);
}
