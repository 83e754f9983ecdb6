use asset_cache::errors::IoError;
use asset_cache::storage::{str_starts_with, MemoryStorage};

#[test]
fn write_then_read_round_trips() {
    let mut storage = MemoryStorage::new();
    let path = String::from("Data/Map001");
    storage.write_bytes(&path, vec![1, 2, 3]).unwrap();
    assert_eq!(storage.read_bytes(&path).unwrap(), vec![1, 2, 3]);

    // Overwriting replaces the payload.
    storage.write_bytes(&path, vec![9]).unwrap();
    assert_eq!(storage.read_bytes(&path).unwrap(), vec![9]);
}

#[test]
fn missing_path_is_not_found() {
    let storage = MemoryStorage::new();
    let path = String::from("Graphics/Icons/foo");
    assert_eq!(storage.read_bytes(&path), Err(IoError::NotFound));
}

#[test]
fn read_only_store_refuses_writes() {
    let mut storage = MemoryStorage::new();
    let path = String::from("Data/Map001");
    storage.write_bytes(&path, vec![1]).unwrap();
    storage.set_readonly(true);
    assert_eq!(
        storage.write_bytes(&path, vec![2]),
        Err(IoError::PermissionDenied)
    );
    // The refused write left the old payload in place.
    assert_eq!(storage.read_bytes(&path).unwrap(), vec![1]);
}

#[test]
fn list_filters_by_prefix_in_stored_order() {
    let mut storage = MemoryStorage::new();
    storage.write_bytes(&String::from("Graphics/Icons/sword"), vec![1]).unwrap();
    storage.write_bytes(&String::from("Data/Map001"), vec![2]).unwrap();
    storage.write_bytes(&String::from("Graphics/Icons/shield"), vec![3]).unwrap();
    storage.write_bytes(&String::from("Graphics/Titles/dawn"), vec![4]).unwrap();

    let icons = storage.list(&String::from("Graphics/Icons/"));
    assert_eq!(
        icons,
        vec![
            String::from("Graphics/Icons/sword"),
            String::from("Graphics/Icons/shield"),
        ]
    );
    let everything = storage.list(&String::from(""));
    assert_eq!(everything.len(), 4);
    let nothing = storage.list(&String::from("Audio/"));
    assert!(nothing.is_empty());
}

#[test]
fn prefix_test_is_exact() {
    assert!(str_starts_with(
        &String::from("Graphics/Icons/foo"),
        &String::from("Graphics/")
    ));
    assert!(!str_starts_with(
        &String::from("Graphics"),
        &String::from("Graphics/")
    ));
    assert!(str_starts_with(&String::from("abc"), &String::from("")));
    assert!(!str_starts_with(&String::from("abd"), &String::from("abc")));
}
