use docstore::config::{resolve_backend, ResolvedBackend, StorageConfig};
use docstore::error::StorageError;
use docstore::keystore::{ConfigEntry, KeystoreDirectory};

#[test]
fn memory_backend_resolves_as_itself() {
    let dir = KeystoreDirectory::new();
    let resolved = resolve_backend(&StorageConfig::Memory, &dir).unwrap();
    assert!(matches!(resolved, ResolvedBackend::Memory));
}

#[test]
fn local_disk_backend_keeps_root() {
    let dir = KeystoreDirectory::new();
    let cfg = StorageConfig::LocalDisk { root: b"/var/lib/documents".to_vec() };
    let resolved = resolve_backend(&cfg, &dir).unwrap();
    match resolved {
        ResolvedBackend::LocalDisk { root } => assert_eq!(root.as_slice(), b"/var/lib/documents"),
        _ => panic!("wrong variant"),
    }
}

#[test]
fn object_store_backend_picks_up_secret() {
    let mut dir = KeystoreDirectory::new();
    dir.add(ConfigEntry {
        keystore: b"tenant-a".to_vec(),
        key: b"s3_secret".to_vec(),
        value: b"example-secret".to_vec(),
    });
    let cfg = StorageConfig::ObjectStore {
        endpoint: b"https://s3.example".to_vec(),
        bucket: b"invoices".to_vec(),
        keystore: b"tenant-a".to_vec(),
        credential: b"s3_secret".to_vec(),
    };
    let resolved = resolve_backend(&cfg, &dir).unwrap();
    match resolved {
        ResolvedBackend::ObjectStore { endpoint, bucket, secret } => {
            assert_eq!(endpoint.as_slice(), b"https://s3.example");
            assert_eq!(bucket.as_slice(), b"invoices");
            assert_eq!(secret.as_slice(), b"example-secret");
        }
        _ => panic!("wrong variant"),
    }
}

#[test]
fn object_store_without_credential_not_found() {
    let dir = KeystoreDirectory::new();
    let cfg = StorageConfig::ObjectStore {
        endpoint: b"https://s3.example".to_vec(),
        bucket: b"invoices".to_vec(),
        keystore: b"tenant-a".to_vec(),
        credential: b"s3_secret".to_vec(),
    };
    let err = resolve_backend(&cfg, &dir).unwrap_err();
    assert_eq!(err, StorageError::NotFound);
}
