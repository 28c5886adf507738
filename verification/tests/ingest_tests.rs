use docstore::error::{StorageError, ValidationFault};
use docstore::id::DocumentId;
use docstore::ingest::{ingest_document, validate_upload, IngestConfig, IngestSession};
use docstore::storage::StorageSystem;

fn xml_config(size_ceiling: u64) -> IngestConfig {
    IngestConfig {
        size_ceiling,
        accepted_types: vec![b"application/xml".to_vec(), b"text/xml".to_vec()],
    }
}

#[test]
fn pipeline_commits_chunked_body() {
    let mut storage = StorageSystem::new();
    let cfg = xml_config(64);
    let chunks: Vec<Vec<u8>> = vec![b"he".to_vec(), b"l".to_vec(), b"lo".to_vec()];
    let id = ingest_document(&mut storage, &cfg, 4, 2, 1, Some(b"application/xml"), &chunks)
        .unwrap();
    assert_eq!(id, DocumentId { hi: 4, lo: 2 });
    assert_eq!(storage.fetch(&id).unwrap().as_slice(), b"hello");
}

#[test]
fn pipeline_accepts_missing_content_type() {
    let mut storage = StorageSystem::new();
    let cfg = xml_config(64);
    let chunks: Vec<Vec<u8>> = vec![b"data".to_vec()];
    assert!(ingest_document(&mut storage, &cfg, 1, 1, 1, None, &chunks).is_ok());
}

#[test]
fn payload_at_ceiling_succeeds() {
    let mut storage = StorageSystem::new();
    let cfg = xml_config(8);
    let chunks: Vec<Vec<u8>> = vec![vec![0; 5], vec![0; 3]];
    assert!(ingest_document(&mut storage, &cfg, 1, 1, 1, None, &chunks).is_ok());
}

#[test]
fn payload_one_byte_over_rejected_with_nothing_written() {
    let mut storage = StorageSystem::new();
    let cfg = xml_config(8);
    let chunks: Vec<Vec<u8>> = vec![vec![0; 5], vec![0; 4]];
    let err = ingest_document(&mut storage, &cfg, 1, 1, 1, None, &chunks).unwrap_err();
    assert_eq!(err, StorageError::Validation(ValidationFault::Oversized));
    assert!(storage.list_documents().is_empty());
    let id = DocumentId { hi: 1, lo: 1 };
    assert_eq!(storage.fetch(&id).unwrap_err(), StorageError::NotFound);
}

#[test]
fn missing_file_part_rejected() {
    let mut storage = StorageSystem::new();
    let cfg = xml_config(8);
    let chunks: Vec<Vec<u8>> = Vec::new();
    let err = ingest_document(&mut storage, &cfg, 1, 1, 0, None, &chunks).unwrap_err();
    assert_eq!(err, StorageError::Validation(ValidationFault::MissingFilePart));
}

#[test]
fn extra_file_part_rejected() {
    let cfg = xml_config(8);
    let err = validate_upload(&cfg, 2, None).unwrap_err();
    assert_eq!(err, StorageError::Validation(ValidationFault::ExtraFilePart));
}

#[test]
fn unsupported_content_type_rejected() {
    let mut storage = StorageSystem::new();
    let cfg = xml_config(8);
    let chunks: Vec<Vec<u8>> = vec![b"x".to_vec()];
    let err = ingest_document(&mut storage, &cfg, 1, 1, 1, Some(b"image/png"), &chunks)
        .unwrap_err();
    assert_eq!(err, StorageError::Validation(ValidationFault::UnsupportedContentType));
    assert!(storage.list_documents().is_empty());
}

#[test]
fn accepted_content_type_passes_validation() {
    let cfg = xml_config(8);
    assert!(validate_upload(&cfg, 1, Some(b"text/xml")).is_ok());
    assert!(validate_upload(&cfg, 1, Some(b"application/xml")).is_ok());
    assert!(validate_upload(&cfg, 1, None).is_ok());
}

#[test]
fn session_rejects_chunk_crossing_ceiling() {
    let storage = StorageSystem::new();
    let cfg = xml_config(4);
    let session = IngestSession::start(&storage, &cfg, 2, 3, 1, None).unwrap();
    let session = session.feed(&[1, 2, 3, 4]).unwrap();
    let err = session.feed(&[5]).unwrap_err();
    assert_eq!(err, StorageError::Validation(ValidationFault::Oversized));
}

#[test]
fn cancelled_session_leaves_no_object() {
    let mut storage = StorageSystem::new();
    storage.store(8, 8, &[42]).unwrap();
    let cfg = xml_config(64);
    let session = IngestSession::start(&storage, &cfg, 2, 3, 1, None).unwrap();
    let session = session.feed(&[1, 2, 3]).unwrap();
    let err = session.cancel();
    assert_eq!(err, StorageError::Cancelled);
    // The partial upload is invisible ...
    let aborted = DocumentId { hi: 2, lo: 3 };
    assert_eq!(storage.fetch(&aborted).unwrap_err(), StorageError::NotFound);
    // ... and the previously committed document is intact.
    let prior = DocumentId { hi: 8, lo: 8 };
    assert_eq!(storage.fetch(&prior).unwrap().as_slice(), &[42]);
    assert_eq!(storage.list_documents(), vec![prior]);
}

#[test]
fn session_commits_exactly_the_fed_bytes() {
    let mut storage = StorageSystem::new();
    let cfg = xml_config(16);
    let session = IngestSession::start(&storage, &cfg, 6, 7, 1, Some(b"text/xml")).unwrap();
    let session = session.feed(b"abc").unwrap();
    let session = session.feed(b"def").unwrap();
    let id = session.finish(&mut storage).unwrap();
    assert_eq!(id, DocumentId { hi: 6, lo: 7 });
    assert_eq!(storage.fetch(&id).unwrap().as_slice(), b"abcdef");
}

#[test]
fn pipeline_fails_on_taken_id_without_overwrite() {
    let mut storage = StorageSystem::new();
    storage.store(1, 1, &[1]).unwrap();
    let cfg = xml_config(8);
    let chunks: Vec<Vec<u8>> = vec![vec![2]];
    let err = ingest_document(&mut storage, &cfg, 1, 1, 1, None, &chunks).unwrap_err();
    assert_eq!(err, StorageError::StorageFailure);
    let id = DocumentId { hi: 1, lo: 1 };
    assert_eq!(storage.fetch(&id).unwrap().as_slice(), &[1]);
}
