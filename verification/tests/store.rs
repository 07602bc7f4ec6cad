use stow::error::StowError;
use stow::store::StoreModel;

fn count<T: PartialEq>(v: &[T], x: &T) -> usize {
    v.iter().filter(|y| *y == x).count()
}

#[test]
fn test_create_container_idempotent() {
    let mut store = StoreModel::new();
    assert!(store.create_container("container-1").is_ok());
    assert!(store.create_container("container-1").is_ok());
    let names = store.containers();
    assert_eq!(count(&names, &String::from("container-1")), 1);
}

#[test]
fn test_create_container_normalizes() {
    let mut store = StoreModel::new();
    store.create_container("My Container!").unwrap();
    store.create_container("mycontainer").unwrap();
    let names = store.containers();
    assert_eq!(names, vec![String::from("mycontainer")]);
}

#[test]
fn test_item_type_enforcement() {
    let mut store = StoreModel::new();
    store.create_container("container-1").unwrap();
    let r = store.create_item("container-1", "noext", b"data".to_vec());
    assert_eq!(r, Err(StowError::ItemTypMissing));
    // no write occurred
    assert_eq!(store.items("container-1").unwrap(), Vec::<String>::new());
}

#[test]
fn test_round_trip() {
    let mut store = StoreModel::new();
    store.create_container("container-1").unwrap();
    for payload in [&b"Hello World"[..], &b""[..], &b"x"[..]] {
        store
            .create_item("container-1", "test.txt", payload.to_vec())
            .unwrap();
        assert_eq!(store.read_item("container-1", "test.txt").unwrap(), payload);
    }
}

#[test]
fn test_overwrite_leaves_only_second_write() {
    let mut store = StoreModel::new();
    store.create_container("container-1").unwrap();
    store
        .create_item("container-1", "test.txt", b"first version, long".to_vec())
        .unwrap();
    store
        .create_item("container-1", "test.txt", b"2nd".to_vec())
        .unwrap();
    assert_eq!(store.read_item("container-1", "test.txt").unwrap(), b"2nd");
    let names = store.items("container-1").unwrap();
    assert_eq!(count(&names, &String::from("test.txt")), 1);
}

#[test]
fn test_cascading_delete() {
    let mut store = StoreModel::new();
    store.create_container("container-1").unwrap();
    store
        .create_item("container-1", "a.txt", b"a".to_vec())
        .unwrap();
    store
        .create_item("container-1", "b.txt", b"b".to_vec())
        .unwrap();
    assert!(store.remove_container("container-1").is_ok());
    assert_eq!(
        store.read_item("container-1", "a.txt"),
        Err(StowError::NotFound)
    );
    assert_eq!(
        store.read_item("container-1", "b.txt"),
        Err(StowError::NotFound)
    );
}

#[test]
fn test_missing_entries_are_errors() {
    let mut store = StoreModel::new();
    assert_eq!(
        store.remove_container("nowhere"),
        Err(StowError::NotFound)
    );
    assert_eq!(store.items("nowhere"), Err(StowError::NotFound));
    assert_eq!(
        store.read_item("nowhere", "a.txt"),
        Err(StowError::NotFound)
    );
    store.create_container("here").unwrap();
    assert_eq!(
        store.remove_item("here", "a.txt"),
        Err(StowError::NotFound)
    );
}

#[test]
fn test_end_to_end_scenario() {
    let mut store = StoreModel::new();

    // create new containers if not available
    store.create_container("container-1").unwrap();
    store.create_container("container-2").unwrap();
    assert!(store.containers().contains(&String::from("container-1")));
    assert!(store.containers().contains(&String::from("container-2")));

    // create two test.txt files
    store
        .create_item("container-1", "test.txt", b"Hello World 1".to_vec())
        .unwrap();
    store
        .create_item("container-2", "test.txt", b"Hello World 2".to_vec())
        .unwrap();
    assert!(store
        .items("container-1")
        .unwrap()
        .contains(&String::from("test.txt")));

    // rewrite the test.txt file
    store
        .create_item("container-1", "test.txt", b"Hello World 1 New".to_vec())
        .unwrap();

    // read the test.txt file
    assert_eq!(
        store.read_item("container-1", "test.txt").unwrap(),
        b"Hello World 1 New"
    );

    // remove the test.txt in container 2
    store.remove_item("container-2", "test.txt").unwrap();
    assert!(store.read_item("container-2", "test.txt").is_err());

    // remove the containers
    store.remove_container("container-2").unwrap();
    store.remove_container("container-1").unwrap();
    assert!(!store.containers().contains(&String::from("container-1")));
    assert!(!store.containers().contains(&String::from("container-2")));
}
