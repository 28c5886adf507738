//! Backend selection and startup credential resolution.
//!
//! A process is configured with exactly one backend variant and its
//! parameters. A remote variant names its credential — a keystore and the
//! key of the secret within it — and the secret is read from the keystore
//! directory once, while the backend is initialised, never per request.

use vstd::prelude::*;

use crate::error::StorageError;
use crate::keystore::KeystoreDirectory;

verus! {

/// The configured backend: exactly one variant per process.
#[derive(Debug)]
pub enum StorageConfig {
    /// Objects held in process memory.
    Memory,
    /// Objects mirrored under a root directory on local disk.
    LocalDisk { root: Vec<u8> },
    /// Objects in a remote object store; `keystore` and `credential` name
    /// the secret that authenticates to it.
    ObjectStore { endpoint: Vec<u8>, bucket: Vec<u8>, keystore: Vec<u8>, credential: Vec<u8> },
}

/// A backend ready to start: parameters plus, for a remote store, the
/// resolved secret.
#[derive(Debug)]
pub enum ResolvedBackend {
    Memory,
    LocalDisk { root: Vec<u8> },
    ObjectStore { endpoint: Vec<u8>, bucket: Vec<u8>, secret: Vec<u8> },
}

/// Resolves a configuration against the keystore directory.
///
/// The local variants pass through unchanged. The object-store variant
/// succeeds exactly when its named credential is bound in the directory,
/// and then carries that secret; otherwise `NotFound`.
pub fn resolve_backend(cfg: &StorageConfig, directory: &KeystoreDirectory) -> (r: Result<
    ResolvedBackend,
    StorageError,
>)
    requires
        directory.wf(),
    ensures
        match cfg {
            StorageConfig::Memory => r == Ok::<ResolvedBackend, StorageError>(
                ResolvedBackend::Memory,
            ),
            StorageConfig::LocalDisk { root } => match r {
                Ok(b) => b matches ResolvedBackend::LocalDisk { root: rr } && rr@ == root@,
                Err(_) => false,
            },
            StorageConfig::ObjectStore { endpoint, bucket, keystore, credential } => match r {
                Ok(b) => directory.lookup().contains_key((keystore@, credential@)) && (
                b matches ResolvedBackend::ObjectStore { endpoint: e, bucket: bk, secret } && e@
                    == endpoint@ && bk@ == bucket@ && secret@ == directory.lookup()[
                    (keystore@, credential@)
                ]),
                Err(e) => !directory.lookup().contains_key((keystore@, credential@)) && e
                    == StorageError::NotFound,
            },
        },
{
    match cfg {
        StorageConfig::Memory => Ok(ResolvedBackend::Memory),
        StorageConfig::LocalDisk { root } => {
            let mut copy: Vec<u8> = Vec::new();
            copy_bytes(root.as_slice(), &mut copy);
            Ok(ResolvedBackend::LocalDisk { root: copy })
        }
        StorageConfig::ObjectStore { endpoint, bucket, keystore, credential } => {
            match directory.get_config_value(keystore.as_slice(), credential.as_slice()) {
                Ok(secret) => {
                    let mut e: Vec<u8> = Vec::new();
                    copy_bytes(endpoint.as_slice(), &mut e);
                    let mut bk: Vec<u8> = Vec::new();
                    copy_bytes(bucket.as_slice(), &mut bk);
                    let mut s: Vec<u8> = Vec::new();
                    copy_bytes(secret.as_slice(), &mut s);
                    Ok(ResolvedBackend::ObjectStore { endpoint: e, bucket: bk, secret: s })
                }
                Err(e) => Err(e),
            }
        }
    }
}

/// Appends all of `src` to `out`.
fn copy_bytes(src: &[u8], out: &mut Vec<u8>)
    ensures
        final(out)@ == old(out)@ + src@,
{
    let mut i: usize = 0;
    while i < src.len()
        invariant
            i <= src.len(),
            out@ == old(out)@ + src@.subrange(0, i as int),
        decreases src.len() - i,
    {
        out.push(src[i]);
        proof {
            assert(src@.subrange(0, i + 1) == src@.subrange(0, i as int).push(src@[i as int]));
        }
        i = i + 1;
    }
    proof {
        assert(src@.subrange(0, src.len() as int) == src@);
    }
}

} // verus!
