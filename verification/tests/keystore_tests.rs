use docstore::error::StorageError;
use docstore::keystore::{ConfigEntry, KeystoreDirectory};
use docstore::retrieval::{send_document, upload_status};
use docstore::id::DocumentId;
use docstore::storage::StorageSystem;

fn entry(keystore: &[u8], key: &[u8], value: &[u8]) -> ConfigEntry {
    ConfigEntry { keystore: keystore.to_vec(), key: key.to_vec(), value: value.to_vec() }
}

#[test]
fn lookup_finds_bound_value() {
    let mut dir = KeystoreDirectory::new();
    assert!(dir.add(entry(b"tenant-a", b"access_key", b"example-access-key")));
    assert!(dir.add(entry(b"tenant-a", b"bucket", b"invoices")));
    assert!(dir.add(entry(b"tenant-b", b"bucket", b"archive")));
    let v = dir.get_config_value(b"tenant-a", b"bucket").unwrap();
    assert_eq!(v.as_slice(), b"invoices");
    let v = dir.get_config_value(b"tenant-b", b"bucket").unwrap();
    assert_eq!(v.as_slice(), b"archive");
}

#[test]
fn lookup_unknown_pair_not_found() {
    let mut dir = KeystoreDirectory::new();
    dir.add(entry(b"tenant-a", b"bucket", b"invoices"));
    let err = dir.get_config_value(b"tenant-a", b"endpoint").unwrap_err();
    assert_eq!(err, StorageError::NotFound);
    let err = dir.get_config_value(b"tenant-c", b"bucket").unwrap_err();
    assert_eq!(err, StorageError::NotFound);
}

#[test]
fn duplicate_binding_refused() {
    let mut dir = KeystoreDirectory::new();
    assert!(dir.add(entry(b"tenant-a", b"bucket", b"first")));
    assert!(!dir.add(entry(b"tenant-a", b"bucket", b"second")));
    let v = dir.get_config_value(b"tenant-a", b"bucket").unwrap();
    assert_eq!(v.as_slice(), b"first");
}

#[test]
fn empty_directory_has_nothing() {
    let dir = KeystoreDirectory::new();
    assert!(dir.get_config_value(b"", b"").is_err());
}

#[test]
fn send_document_streams_committed_bytes() {
    let mut storage = StorageSystem::new();
    let id = storage.store(1, 2, b"payload").unwrap();
    let (status, body) = send_document(&storage, &id);
    assert_eq!(status, 200);
    assert_eq!(body.unwrap().as_slice(), b"payload");
}

#[test]
fn send_document_unknown_is_404_without_body() {
    let storage = StorageSystem::new();
    let id = DocumentId { hi: 5, lo: 6 };
    let (status, body) = send_document(&storage, &id);
    assert_eq!(status, 404);
    assert!(body.is_none());
}

#[test]
fn upload_status_maps_results() {
    let ok: Result<DocumentId, StorageError> = Ok(DocumentId { hi: 0, lo: 0 });
    assert_eq!(upload_status(&ok), 201);
    let err: Result<DocumentId, StorageError> = Err(StorageError::StorageFailure);
    assert_eq!(upload_status(&err), 500);
    let err: Result<DocumentId, StorageError> = Err(StorageError::NotFound);
    assert_eq!(upload_status(&err), 404);
}

#[test]
fn error_describe_labels() {
    assert_eq!(StorageError::NotFound.describe(), "document not found");
    assert_eq!(StorageError::Cancelled.describe(), "client disconnected");
}
