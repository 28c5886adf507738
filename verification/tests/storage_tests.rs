use docstore::error::{StorageError, ValidationFault};
use docstore::id::DocumentId;
use docstore::storage::StorageSystem;

#[test]
fn round_trip_identity() {
    let mut storage = StorageSystem::new();
    let content: Vec<u8> = vec![1, 2, 3, 4, 5, 255, 0, 42];
    let id = storage.store(7, 9, content.as_slice()).unwrap();
    let fetched = storage.fetch(&id).unwrap();
    assert_eq!(fetched.as_slice(), content.as_slice());
}

#[test]
fn round_trip_empty_document() {
    let mut storage = StorageSystem::new();
    let id = storage.store(0, 0, &[]).unwrap();
    let fetched = storage.fetch(&id).unwrap();
    assert!(fetched.is_empty());
}

#[test]
fn fetch_unknown_not_found() {
    let storage = StorageSystem::new();
    let id = DocumentId { hi: 123, lo: 456 };
    assert_eq!(storage.fetch(&id).unwrap_err(), StorageError::NotFound);
}

#[test]
fn fetch_other_id_not_found_after_store() {
    let mut storage = StorageSystem::new();
    storage.store(1, 1, &[9, 9]).unwrap();
    let other = DocumentId { hi: 1, lo: 2 };
    assert_eq!(storage.fetch(&other).unwrap_err(), StorageError::NotFound);
}

#[test]
fn many_stores_unique_ids_no_cross_contamination() {
    let mut storage = StorageSystem::new();
    let mut issued: Vec<(DocumentId, Vec<u8>)> = Vec::new();
    for n in 0..100u64 {
        let content = vec![n as u8, (n + 1) as u8, (n + 2) as u8];
        let id = storage.store(n / 7, n * 31, content.as_slice()).unwrap();
        issued.push((id, content));
    }
    for i in 0..issued.len() {
        for j in 0..issued.len() {
            if i != j {
                assert_ne!(issued[i].0, issued[j].0);
            }
        }
    }
    for (id, content) in &issued {
        assert_eq!(storage.fetch(id).unwrap().as_slice(), content.as_slice());
    }
}

#[test]
fn store_taken_id_fails_and_keeps_existing() {
    let mut storage = StorageSystem::new();
    let id = storage.store(5, 5, &[1]).unwrap();
    let second = storage.store(5, 5, &[2]);
    assert_eq!(second.unwrap_err(), StorageError::StorageFailure);
    assert_eq!(storage.fetch(&id).unwrap().as_slice(), &[1]);
}

#[test]
fn delete_then_fetch_not_found() {
    let mut storage = StorageSystem::new();
    let id = storage.store(3, 4, &[7, 8, 9]).unwrap();
    assert_eq!(storage.remove(&id).unwrap(), true);
    assert_eq!(storage.fetch(&id).unwrap_err(), StorageError::NotFound);
}

#[test]
fn delete_is_idempotent() {
    let mut storage = StorageSystem::new();
    let id = storage.store(3, 4, &[7]).unwrap();
    assert_eq!(storage.remove(&id).unwrap(), true);
    assert_eq!(storage.remove(&id).unwrap(), false);
    let never_stored = DocumentId { hi: 77, lo: 88 };
    assert_eq!(storage.remove(&never_stored).unwrap(), false);
}

#[test]
fn delete_leaves_other_documents() {
    let mut storage = StorageSystem::new();
    let id1 = storage.store(1, 0, &[11]).unwrap();
    let id2 = storage.store(2, 0, &[22]).unwrap();
    storage.remove(&id1).unwrap();
    assert_eq!(storage.fetch(&id2).unwrap().as_slice(), &[22]);
}

#[test]
fn list_documents_reflects_store_and_remove() {
    let mut storage = StorageSystem::new();
    assert!(storage.list_documents().is_empty());
    let id1 = storage.store(1, 1, &[1]).unwrap();
    let id2 = storage.store(2, 2, &[2]).unwrap();
    let listed = storage.list_documents();
    assert_eq!(listed.len(), 2);
    assert!(listed.contains(&id1));
    assert!(listed.contains(&id2));
    storage.remove(&id1).unwrap();
    let listed = storage.list_documents();
    assert_eq!(listed, vec![id2]);
}

#[test]
fn contains_document_tracks_lifecycle() {
    let mut storage = StorageSystem::new();
    let id = DocumentId { hi: 10, lo: 20 };
    assert!(!storage.contains_document(&id));
    storage.store(10, 20, &[5]).unwrap();
    assert!(storage.contains_document(&id));
    storage.remove(&id).unwrap();
    assert!(!storage.contains_document(&id));
}

#[test]
fn streaming_store_commits_concatenation() {
    let mut storage = StorageSystem::new();
    let mut pending = storage.begin_store(9, 9);
    pending.write(&[1, 2]);
    pending.write(&[]);
    pending.write(&[3]);
    assert_eq!(pending.staged_len(), 3);
    let id = storage.commit_store(pending).unwrap();
    assert_eq!(storage.fetch(&id).unwrap().as_slice(), &[1, 2, 3]);
}

#[test]
fn aborted_streaming_store_invisible() {
    let mut storage = StorageSystem::new();
    let pending = storage.begin_store(9, 9);
    pending.abort();
    let id = DocumentId { hi: 9, lo: 9 };
    assert_eq!(storage.fetch(&id).unwrap_err(), StorageError::NotFound);
    assert!(storage.list_documents().is_empty());
}

#[test]
fn error_status_codes() {
    assert_eq!(StorageError::Validation(ValidationFault::Oversized).status_code(), 413);
    assert_eq!(StorageError::Validation(ValidationFault::MissingFilePart).status_code(), 400);
    assert_eq!(StorageError::Validation(ValidationFault::ExtraFilePart).status_code(), 400);
    assert_eq!(StorageError::Validation(ValidationFault::UnsupportedContentType).status_code(), 400);
    assert_eq!(StorageError::NotFound.status_code(), 404);
    assert_eq!(StorageError::StorageFailure.status_code(), 500);
    assert_eq!(StorageError::Cancelled.status_code(), 499);
}
