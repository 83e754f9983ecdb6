//! The cooperative loop end to end: panels request, the frame loop performs
//! the backend reads the cache scheduled, and completions fold back in.

use asset_cache::cache::{GetOutcome, ResourceCache, Stage};
use asset_cache::errors::{IoError, LoadError};
use asset_cache::keys::ResourceKey;
use asset_cache::loader::Completion;
use asset_cache::resource::Resource;
use asset_cache::storage::MemoryStorage;

/// One render tick: performs every scheduled read against `storage` and
/// hands the outcomes back to the cache.
fn pump(cache: &mut ResourceCache, storage: &MemoryStorage) {
    let mut completions = Vec::new();
    for (task, key) in cache.pending_requests() {
        let result = match &key {
            ResourceKey::AssetPath(path) => storage.read_bytes(path),
            ResourceKey::DocumentId(id) => storage.read_bytes(&format!("Data/{id}")),
        };
        completions.push(Completion { task, result });
    }
    cache.poll_all(completions);
}

#[test]
fn a_project_loads_over_frames() {
    let mut storage = MemoryStorage::new();
    let mut map_bytes = 1u32.to_le_bytes().to_vec();
    map_bytes.extend_from_slice(&2u32.to_le_bytes());
    map_bytes.extend_from_slice(b"grass");
    storage.write_bytes(&String::from("Data/1"), map_bytes).unwrap();
    storage
        .write_bytes(&String::from("Graphics/Icons/sword"), vec![7, 7])
        .unwrap();

    let mut cache = ResourceCache::new();
    let map_key = ResourceKey::DocumentId(1);
    let icon_key = ResourceKey::AssetPath(String::from("Graphics/Icons/sword"));
    let missing_key = ResourceKey::AssetPath(String::from("Graphics/Icons/ghost"));

    // Frame one: all three panels see pending entries.
    assert_eq!(cache.get_or_load(&map_key), GetOutcome::Pending);
    assert_eq!(cache.get_or_load(&icon_key), GetOutcome::Pending);
    assert_eq!(cache.get_or_load(&missing_key), GetOutcome::Pending);
    pump(&mut cache, &storage);

    // Frame two: the stored entries are ready, the missing one failed.
    assert_eq!(cache.get_or_load(&map_key), GetOutcome::Ready);
    assert_eq!(cache.get_or_load(&icon_key), GetOutcome::Ready);
    assert_eq!(
        cache.get_or_load(&missing_key),
        GetOutcome::Failed(LoadError::Io(IoError::NotFound))
    );
    assert_eq!(cache.pending_count(), 0);

    match cache.read(&map_key) {
        Some(Resource::Document(doc)) => {
            assert_eq!(doc.id, 1);
            assert_eq!(doc.tileset_id, 2);
            assert_eq!(doc.body, b"grass".to_vec());
        }
        _ => panic!("expected the map document"),
    }
    match cache.read(&icon_key) {
        Some(Resource::Asset(bytes)) => assert_eq!(bytes, &vec![7, 7]),
        _ => panic!("expected the icon bytes"),
    }
    assert_eq!(cache.stage(&missing_key), Stage::Failed);
}
