//! The retrieval path: resolving an identifier to a response.
//!
//! `send_document` resolves a `DocumentId` through the storage system and
//! produces the status and body of the reply: the committed bytes with
//! status 200, or 404 with no body for an unknown identifier. The caller
//! streams the body out and sets the length header from it.

use vstd::prelude::*;

use crate::error::StorageError;
use crate::id::DocumentId;
use crate::storage::StorageSystem;

verus! {

/// Resolves an identifier and builds the reply for a document download.
///
/// Exactly two outcomes: the identifier resolves and the reply carries
/// status 200 with the full committed content as its body, or it does not
/// and the reply is 404 with no body.
pub fn send_document<'a>(storage: &'a StorageSystem, id: &DocumentId) -> (r: (u16, Option<
    &'a Vec<u8>,
>))
    requires
        storage.wf(),
    ensures
        match r.1 {
            Some(body) => storage.docs().contains_key(*id) && r.0 == 200 && body@
                == storage.docs()[*id],
            None => !storage.docs().contains_key(*id) && r.0 == 404,
        },
{
    match storage.fetch(id) {
        Ok(bytes) => (200, Some(bytes)),
        Err(_) => (404, None),
    }
}

/// The status of an upload reply: 201 with the fresh identifier, or the
/// status of the error (400 for a malformed shape, 413 over the ceiling,
/// 500 on a backend fault, 499 for a disconnected client).
pub fn upload_status(r: &Result<DocumentId, StorageError>) -> (code: u16)
    ensures
        match r {
            Ok(_) => code == 201,
            Err(e) => code == e.spec_status_code(),
        },
{
    match r {
        Ok(_) => 201,
        Err(e) => e.status_code(),
    }
}

} // verus!
