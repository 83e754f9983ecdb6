use asset_cache::cache::{GetOutcome, ResourceCache, Stage};
use asset_cache::errors::{CacheError, FormatError, IoError, LoadError};
use asset_cache::keys::ResourceKey;
use asset_cache::loader::Completion;
use asset_cache::resource::{Edit, Resource};

fn doc_bytes(id: u32, tileset_id: u32, body: &[u8]) -> Vec<u8> {
    let mut bytes = Vec::new();
    bytes.extend_from_slice(&id.to_le_bytes());
    bytes.extend_from_slice(&tileset_id.to_le_bytes());
    bytes.extend_from_slice(body);
    bytes
}

/// Drives the one pending read to completion with the given result.
fn complete_single(cache: &mut ResourceCache, result: Result<Vec<u8>, IoError>) {
    let requests = cache.pending_requests();
    assert_eq!(requests.len(), 1);
    let task = requests[0].0;
    cache.poll_all(vec![Completion { task, result }]);
}

#[test]
fn scenario_first_request_loads_and_decodes() {
    let mut cache = ResourceCache::new();
    let key = ResourceKey::DocumentId(1);

    let first = cache.get_or_load(&key);
    assert_eq!(first, GetOutcome::Pending);
    assert_eq!(cache.stage(&key), Stage::Loading);

    complete_single(&mut cache, Ok(doc_bytes(1, 3, b"tiles")));

    let second = cache.get_or_load(&key);
    assert_eq!(second, GetOutcome::Ready);
    match cache.read(&key) {
        Some(Resource::Document(doc)) => {
            assert_eq!(doc.id, 1);
            assert_eq!(doc.tileset_id, 3);
            assert_eq!(doc.body, b"tiles".to_vec());
        }
        _ => panic!("expected a decoded document"),
    }
}

#[test]
fn scenario_missing_asset_fails_until_invalidated() {
    let mut cache = ResourceCache::new();
    let key = ResourceKey::AssetPath(String::from("Graphics/Icons/foo"));

    assert_eq!(cache.get_or_load(&key), GetOutcome::Pending);
    complete_single(&mut cache, Err(IoError::NotFound));

    assert_eq!(cache.stage(&key), Stage::Failed);
    let failed = GetOutcome::Failed(LoadError::Io(IoError::NotFound));
    assert_eq!(cache.get_or_load(&key), failed);
    assert_eq!(cache.get_or_load(&key), failed);
    // The stored error is returned without re-issuing the read.
    assert_eq!(cache.pending_count(), 0);

    cache.invalidate(&key);
    assert_eq!(cache.stage(&key), Stage::Unloaded);
    assert_eq!(cache.get_or_load(&key), GetOutcome::Pending);
    assert_eq!(cache.pending_count(), 1);
}

#[test]
fn repeated_requests_share_one_read() {
    let mut cache = ResourceCache::new();
    let key = ResourceKey::DocumentId(7);

    // P1: identical outcome twice, and at most one backend read issued.
    let first = cache.get_or_load(&key);
    let second = cache.get_or_load(&key);
    assert_eq!(first, second);
    assert_eq!(cache.pending_count(), 1);

    // P2: a third panel attaching while `Loading` still sees one task.
    assert_eq!(cache.get_or_load(&key), GetOutcome::Pending);
    assert_eq!(cache.pending_count(), 1);
    assert_eq!(cache.entry_count(), 1);
}

#[test]
fn stages_move_forward_only() {
    let mut cache = ResourceCache::new();
    let key = ResourceKey::DocumentId(9);

    // P3 on concrete values: Unloaded, Loading, Ready; then Unloaded only
    // through invalidate.
    assert_eq!(cache.stage(&key), Stage::Unloaded);
    cache.get_or_load(&key);
    assert_eq!(cache.stage(&key), Stage::Loading);
    complete_single(&mut cache, Ok(doc_bytes(9, 1, &[])));
    assert_eq!(cache.stage(&key), Stage::Ready);
    cache.get_or_load(&key);
    assert_eq!(cache.stage(&key), Stage::Ready);
    cache.invalidate(&key);
    assert_eq!(cache.stage(&key), Stage::Unloaded);
}

#[test]
fn truncated_document_fails_decode() {
    let mut cache = ResourceCache::new();
    let key = ResourceKey::DocumentId(2);
    cache.get_or_load(&key);
    complete_single(&mut cache, Ok(vec![1, 0, 0]));
    assert_eq!(
        cache.get_or_load(&key),
        GetOutcome::Failed(LoadError::Format(FormatError::Truncated))
    );
}

#[test]
fn empty_asset_fails_decode() {
    let mut cache = ResourceCache::new();
    let key = ResourceKey::AssetPath(String::from("Audio/BGM/theme"));
    cache.get_or_load(&key);
    complete_single(&mut cache, Ok(Vec::new()));
    assert_eq!(
        cache.get_or_load(&key),
        GetOutcome::Failed(LoadError::Format(FormatError::Empty))
    );
}

#[test]
fn backend_fault_is_stored() {
    let mut cache = ResourceCache::new();
    let key = ResourceKey::DocumentId(4);
    cache.get_or_load(&key);
    complete_single(&mut cache, Err(IoError::Backend));
    assert_eq!(
        cache.get_or_load(&key),
        GetOutcome::Failed(LoadError::Io(IoError::Backend))
    );
}

#[test]
fn permission_fault_is_stored() {
    let mut cache = ResourceCache::new();
    let key = ResourceKey::AssetPath(String::from("Data/locked"));
    cache.get_or_load(&key);
    complete_single(&mut cache, Err(IoError::PermissionDenied));
    assert_eq!(
        cache.get_or_load(&key),
        GetOutcome::Failed(LoadError::Io(IoError::PermissionDenied))
    );
}

#[test]
fn little_endian_header_is_decoded_exactly() {
    let mut cache = ResourceCache::new();
    let key = ResourceKey::DocumentId(77);
    cache.get_or_load(&key);
    complete_single(
        &mut cache,
        Ok(vec![0x78, 0x56, 0x34, 0x12, 0x01, 0x00, 0x00, 0x00]),
    );
    match cache.read(&key) {
        Some(Resource::Document(doc)) => {
            assert_eq!(doc.id, 0x12345678);
            assert_eq!(doc.tileset_id, 1);
            assert_eq!(doc.body.len(), 0);
        }
        _ => panic!("expected a decoded document"),
    }
}

#[test]
fn invalidated_load_discards_late_result() {
    let mut cache = ResourceCache::new();
    let key = ResourceKey::DocumentId(5);
    cache.get_or_load(&key);
    let requests = cache.pending_requests();
    let stale_task = requests[0].0;

    // Invalidate mid-load: the task is not aborted, but its result must be
    // discarded on arrival.
    cache.invalidate(&key);
    assert_eq!(cache.stage(&key), Stage::Unloaded);
    cache.poll_all(vec![Completion {
        task: stale_task,
        result: Ok(doc_bytes(5, 1, b"stale")),
    }]);
    assert_eq!(cache.stage(&key), Stage::Unloaded);
    assert_eq!(cache.pending_count(), 0);

    // A fresh request loads under a new task, unaffected by the stale one.
    cache.get_or_load(&key);
    complete_single(&mut cache, Ok(doc_bytes(5, 2, b"fresh")));
    match cache.read(&key) {
        Some(Resource::Document(doc)) => assert_eq!(doc.body, b"fresh".to_vec()),
        _ => panic!("expected the fresh document"),
    }
}

#[test]
fn unknown_completion_is_ignored() {
    let mut cache = ResourceCache::new();
    let key = ResourceKey::DocumentId(6);
    cache.get_or_load(&key);
    cache.poll_all(vec![Completion { task: 999, result: Err(IoError::Backend) }]);
    assert_eq!(cache.stage(&key), Stage::Loading);
    assert_eq!(cache.pending_count(), 1);
}

#[test]
fn mutate_edits_ready_document_in_place() {
    let mut cache = ResourceCache::new();
    let key = ResourceKey::DocumentId(3);
    cache.get_or_load(&key);
    complete_single(&mut cache, Ok(doc_bytes(3, 1, b"old")));

    assert!(cache.mutate(&key, Edit::SetTilesetId(8)).is_ok());
    assert!(cache.mutate(&key, Edit::SetBody(b"new".to_vec())).is_ok());
    match cache.read(&key) {
        Some(Resource::Document(doc)) => {
            assert_eq!(doc.tileset_id, 8);
            assert_eq!(doc.body, b"new".to_vec());
        }
        _ => panic!("expected the edited document"),
    }
}

#[test]
fn mutate_before_ready_is_refused() {
    let mut cache = ResourceCache::new();
    let key = ResourceKey::DocumentId(11);
    assert_eq!(
        cache.mutate(&key, Edit::SetTilesetId(1)),
        Err(CacheError::NotReady)
    );
    cache.get_or_load(&key);
    assert_eq!(
        cache.mutate(&key, Edit::SetTilesetId(1)),
        Err(CacheError::NotReady)
    );
}

#[test]
fn document_edit_on_asset_is_refused_unchanged() {
    let mut cache = ResourceCache::new();
    let key = ResourceKey::AssetPath(String::from("Graphics/Icons/sword"));
    cache.get_or_load(&key);
    complete_single(&mut cache, Ok(vec![42]));
    assert_eq!(
        cache.mutate(&key, Edit::SetTilesetId(1)),
        Err(CacheError::WrongKind)
    );
    match cache.read(&key) {
        Some(Resource::Asset(bytes)) => assert_eq!(bytes, &vec![42]),
        _ => panic!("expected the untouched asset"),
    }
}

#[test]
fn mutation_is_exclusive() {
    let mut cache = ResourceCache::new();
    let key = ResourceKey::DocumentId(12);
    cache.get_or_load(&key);
    complete_single(&mut cache, Ok(doc_bytes(12, 1, b"body")));

    // P5: a second mutation against a checked-out entry reports a borrow
    // conflict instead of corrupting the value.
    let checked_out = cache.begin_mutate(&key).unwrap();
    assert_eq!(cache.begin_mutate(&key).unwrap_err(), CacheError::BorrowConflict);
    assert_eq!(
        cache.mutate(&key, Edit::SetTilesetId(2)),
        Err(CacheError::BorrowConflict)
    );
    // The entry still reads as Ready to requesters, but the value is out.
    assert_eq!(cache.stage(&key), Stage::Ready);
    assert!(cache.read(&key).is_none());

    let mut doc = match checked_out {
        Resource::Document(doc) => doc,
        _ => panic!("expected a document"),
    };
    doc.tileset_id = 99;
    assert!(cache.end_mutate(&key, Resource::Document(doc)).is_ok());
    match cache.read(&key) {
        Some(Resource::Document(doc)) => assert_eq!(doc.tileset_id, 99),
        _ => panic!("expected the edited document"),
    }
}

#[test]
fn checked_out_value_is_handed_back_after_invalidate() {
    let mut cache = ResourceCache::new();
    let key = ResourceKey::DocumentId(13);
    cache.get_or_load(&key);
    complete_single(&mut cache, Ok(doc_bytes(13, 1, b"")));

    let value = cache.begin_mutate(&key).unwrap();
    cache.invalidate(&key);
    // The entry was reset meanwhile: the late value is not installed.
    match cache.end_mutate(&key, value) {
        Err(Resource::Document(doc)) => assert_eq!(doc.id, 13),
        _ => panic!("expected the value handed back"),
    }
    assert_eq!(cache.stage(&key), Stage::Unloaded);
}

#[test]
fn entries_are_never_duplicated() {
    let mut cache = ResourceCache::new();
    let doc_key = ResourceKey::DocumentId(1);
    let asset_key = ResourceKey::AssetPath(String::from("Data/one"));
    cache.get_or_load(&doc_key);
    cache.get_or_load(&asset_key);
    cache.get_or_load(&doc_key);
    cache.invalidate(&doc_key);
    cache.get_or_load(&doc_key);
    assert_eq!(cache.entry_count(), 2);
}
