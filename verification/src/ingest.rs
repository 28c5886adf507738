//! The ingestion pipeline.
//!
//! One request runs the state machine `Receiving -> Validating -> Writing ->
//! Committed`, leaving through `Rejected` (a request the client can fix) or
//! `Failed` (a backend fault) at any stage. Shape validation admits exactly
//! one file part whose declared content type, when present, lies in the
//! configured accepted set. The size ceiling is enforced by counting bytes
//! as they arrive — a chunk that would push the count over the ceiling
//! aborts the stream at once, before anything else is read — and the body
//! streams into a staged write, so a rejected, failed or abandoned upload
//! leaves no visible object.

use vstd::prelude::*;

use crate::bytes::bytes_eq;
use crate::error::{StorageError, ValidationFault};
use crate::id::DocumentId;
use crate::storage::{PendingStore, StorageSystem};

verus! {

/// Configuration of the pipeline: the size ceiling in bytes and the set of
/// accepted declared content types.
pub struct IngestConfig {
    pub size_ceiling: u64,
    pub accepted_types: Vec<Vec<u8>>,
}

/// Whether `ct` is one of the accepted content types.
pub open spec fn spec_type_accepted(accepted: Seq<Vec<u8>>, ct: Seq<u8>) -> bool {
    exists|i: int| 0 <= i < accepted.len() && (#[trigger] accepted[i])@ == ct
}

/// Whether a declared content type passes: absent, or in the accepted set.
pub open spec fn spec_declared_type_ok(accepted: Seq<Vec<u8>>, ct: Option<Seq<u8>>) -> bool {
    match ct {
        None => true,
        Some(c) => spec_type_accepted(accepted, c),
    }
}

/// Whether the multipart shape passes validation: exactly one file part,
/// and an acceptable declared content type.
pub open spec fn spec_shape_ok(accepted: Seq<Vec<u8>>, file_parts: int, ct: Option<Seq<u8>>) -> bool {
    file_parts == 1 && spec_declared_type_ok(accepted, ct)
}

/// The fault reported for a shape that fails validation, most structural
/// first: no file part, too many, then the content type.
pub open spec fn spec_shape_fault(accepted: Seq<Vec<u8>>, file_parts: int, ct: Option<Seq<u8>>) -> ValidationFault {
    if file_parts == 0 {
        ValidationFault::MissingFilePart
    } else if file_parts > 1 {
        ValidationFault::ExtraFilePart
    } else {
        ValidationFault::UnsupportedContentType
    }
}

/// The view of an optional borrowed content type.
pub open spec fn spec_opt_bytes(ct: Option<&[u8]>) -> Option<Seq<u8>> {
    match ct {
        None => None,
        Some(c) => Some(c@),
    }
}

/// Whether `ct` is a member of the accepted set, by byte equality.
pub fn type_accepted(accepted: &Vec<Vec<u8>>, ct: &[u8]) -> (r: bool)
    ensures
        r == spec_type_accepted(accepted@, ct@),
{
    let mut i: usize = 0;
    while i < accepted.len()
        invariant
            i <= accepted.len(),
            forall|j: int| 0 <= j < i ==> (#[trigger] accepted@[j])@ != ct@,
        decreases accepted.len() - i,
    {
        if bytes_eq(accepted[i].as_slice(), ct) {
            return true;
        }
        i = i + 1;
    }
    false
}

/// Validates the multipart shape of an upload: exactly one file part and,
/// where one is declared, an accepted content type. A structural
/// precondition only — the payload itself is never inspected, and the
/// backend is never touched.
pub fn validate_upload(cfg: &IngestConfig, file_parts: usize, declared_type: Option<&[u8]>) -> (r:
    Result<(), StorageError>)
    ensures
        r is Ok <==> spec_shape_ok(cfg.accepted_types@, file_parts as int, spec_opt_bytes(declared_type)),
        r is Err ==> r == Err::<(), StorageError>(
            StorageError::Validation(
                spec_shape_fault(cfg.accepted_types@, file_parts as int, spec_opt_bytes(declared_type)),
            ),
        ),
{
    if file_parts == 0 {
        return Err(StorageError::Validation(ValidationFault::MissingFilePart));
    }
    if file_parts > 1 {
        return Err(StorageError::Validation(ValidationFault::ExtraFilePart));
    }
    match declared_type {
        None => Ok(()),
        Some(ct) => {
            if type_accepted(&cfg.accepted_types, ct) {
                Ok(())
            } else {
                Err(StorageError::Validation(ValidationFault::UnsupportedContentType))
            }
        }
    }
}

/// One upload in its `Writing` stage: validated shape, bytes counted
/// against the ceiling, payload staged but not visible. Dropping the
/// session (client disconnect) discards the staged bytes; only `finish`
/// publishes them.
#[derive(Debug)]
pub struct IngestSession {
    ceiling: u64,
    received: u64,
    pending: PendingStore,
}

impl IngestSession {
    /// The identifier this upload will receive if it commits.
    pub closed spec fn spec_id(&self) -> DocumentId {
        self.pending.spec_id()
    }

    /// The bytes staged so far.
    pub closed spec fn staged(&self) -> Seq<u8> {
        self.pending.staged()
    }

    /// The number of bytes received so far.
    pub closed spec fn received(&self) -> u64 {
        self.received
    }

    /// The configured size ceiling.
    pub closed spec fn ceiling(&self) -> u64 {
        self.ceiling
    }

    /// Every received byte is staged, and the count respects the ceiling.
    pub closed spec fn wf(&self) -> bool {
        &&& self.pending.wf()
        &&& self.received as int == self.pending.staged().len()
        &&& self.received <= self.ceiling
    }

    /// Opens an upload: validates the multipart shape, then readies a
    /// streaming store under an identifier built from the caller's entropy.
    /// Rejection happens before any byte is read or staged.
    pub fn start(
        storage: &StorageSystem,
        cfg: &IngestConfig,
        hi: u64,
        lo: u64,
        file_parts: usize,
        declared_type: Option<&[u8]>,
    ) -> (r: Result<IngestSession, StorageError>)
        ensures
            match r {
                Ok(s) => {
                    &&& spec_shape_ok(cfg.accepted_types@, file_parts as int, spec_opt_bytes(declared_type))
                    &&& s.wf()
                    &&& s.spec_id() == (DocumentId { hi, lo })
                    &&& s.received() == 0
                    &&& s.staged() == Seq::<u8>::empty()
                    &&& s.ceiling() == cfg.size_ceiling
                },
                Err(e) => {
                    &&& !spec_shape_ok(cfg.accepted_types@, file_parts as int, spec_opt_bytes(declared_type))
                    &&& e == StorageError::Validation(
                        spec_shape_fault(cfg.accepted_types@, file_parts as int, spec_opt_bytes(declared_type)),
                    )
                },
            },
    {
        match validate_upload(cfg, file_parts, declared_type) {
            Ok(()) => Ok(
                IngestSession {
                    ceiling: cfg.size_ceiling,
                    received: 0,
                    pending: storage.begin_store(hi, lo),
                },
            ),
            Err(e) => Err(e),
        }
    }

    /// Feeds one chunk of the streaming body.
    ///
    /// The count is checked before the chunk is staged: a chunk that would
    /// push it over the ceiling rejects the upload as oversized, consuming
    /// the session and discarding everything staged — zero bytes ever
    /// become visible. Otherwise the chunk is appended to the staged write.
    pub fn feed(self, chunk: &[u8]) -> (r: Result<IngestSession, StorageError>)
        requires
            self.wf(),
        ensures
            match r {
                Ok(s) => {
                    &&& self.received() + chunk@.len() <= self.ceiling()
                    &&& s.wf()
                    &&& s.spec_id() == self.spec_id()
                    &&& s.ceiling() == self.ceiling()
                    &&& s.received() == self.received() + chunk@.len()
                    &&& s.staged() == self.staged() + chunk@
                },
                Err(e) => {
                    &&& self.received() + chunk@.len() > self.ceiling()
                    &&& e == StorageError::Validation(ValidationFault::Oversized)
                },
            },
    {
        let chunk_len: u64 = chunk.len() as u64;
        if chunk_len > self.ceiling - self.received {
            return Err(StorageError::Validation(ValidationFault::Oversized));
        }
        let IngestSession { ceiling, received, mut pending } = self;
        pending.write(chunk);
        Ok(IngestSession { ceiling, received: received + chunk_len, pending })
    }

    /// Commits the upload: the staged bytes become durably readable under
    /// the new identifier, which is returned only now, after the driver's
    /// acknowledgement. Fails — issuing nothing and changing nothing — only
    /// when the identifier is already taken.
    pub fn finish(self, storage: &mut StorageSystem) -> (r: Result<DocumentId, StorageError>)
        requires
            self.wf(),
            old(storage).wf(),
        ensures
            final(storage).wf(),
            r is Ok <==> !old(storage).docs().contains_key(self.spec_id()),
            r is Ok ==> r == Ok::<DocumentId, StorageError>(self.spec_id()) && final(storage).docs()
                == old(storage).docs().insert(self.spec_id(), self.staged()),
            r is Err ==> final(storage).docs() == old(storage).docs() && r == Err::<
                DocumentId,
                StorageError,
            >(StorageError::StorageFailure),
    {
        storage.commit_store(self.pending)
    }

    /// Abandons the upload: the client disconnected mid-stream. The staged
    /// bytes are discarded, no identifier is issued, and the storage system
    /// is untouched — no reader can ever observe a partial object. The
    /// returned error is the one the transport layer logs for the request.
    pub fn cancel(self) -> (e: StorageError)
        ensures
            e == StorageError::Cancelled,
    {
        self.pending.abort();
        StorageError::Cancelled
    }
}

/// The bytes of a chunked body, in arrival order.
pub open spec fn concat_chunks(chunks: Seq<Vec<u8>>) -> Seq<u8>
    decreases chunks.len(),
{
    if chunks.len() == 0 {
        Seq::empty()
    } else {
        concat_chunks(chunks.drop_last()) + chunks.last()@
    }
}

/// Extending a prefix of the body by one chunk appends that chunk's bytes.
proof fn lemma_concat_prefix_step(chunks: Seq<Vec<u8>>, i: int)
    requires
        0 <= i < chunks.len(),
    ensures
        concat_chunks(chunks.subrange(0, i + 1)) == concat_chunks(chunks.subrange(0, i))
            + chunks[i]@,
{
    let p = chunks.subrange(0, i + 1);
    assert(p.drop_last() =~= chunks.subrange(0, i));
    assert(p.last() == chunks[i]);
}

/// No prefix of the body is longer than the whole body.
proof fn lemma_concat_prefix_len(chunks: Seq<Vec<u8>>, i: int)
    requires
        0 <= i <= chunks.len(),
    ensures
        concat_chunks(chunks.subrange(0, i)).len() <= concat_chunks(chunks).len(),
    decreases chunks.len() - i,
{
    if i == chunks.len() {
        assert(chunks.subrange(0, i) =~= chunks);
    } else {
        lemma_concat_prefix_step(chunks, i);
        lemma_concat_prefix_len(chunks, i + 1);
    }
}

/// Runs one upload through the whole pipeline against an in-memory
/// storage system: shape validation, incremental size accounting over the
/// chunked body, staged write, atomic commit.
///
/// Exactly one of four outcomes, and on every failure the committed
/// documents are untouched:
/// - the shape fails validation: its fault, before any byte is read;
/// - the body exceeds the ceiling: `Oversized`, with zero bytes visible;
/// - the identifier is already taken: `StorageFailure`, nothing issued;
/// - otherwise the identifier, now resolving to the whole body.
pub fn ingest_document(
    storage: &mut StorageSystem,
    cfg: &IngestConfig,
    hi: u64,
    lo: u64,
    file_parts: usize,
    declared_type: Option<&[u8]>,
    chunks: &Vec<Vec<u8>>,
) -> (r: Result<DocumentId, StorageError>)
    requires
        old(storage).wf(),
    ensures
        final(storage).wf(),
        ({
            let id = DocumentId { hi, lo };
            let content = concat_chunks(chunks@);
            let shape = spec_shape_ok(
                cfg.accepted_types@,
                file_parts as int,
                spec_opt_bytes(declared_type),
            );
            &&& (r is Ok <==> shape && content.len() <= cfg.size_ceiling && !old(
                storage,
            ).docs().contains_key(id))
            &&& (r is Ok ==> r == Ok::<DocumentId, StorageError>(id) && final(storage).docs()
                == old(storage).docs().insert(id, content))
            &&& (r is Err ==> final(storage).docs() == old(storage).docs())
            &&& (!shape ==> r == Err::<DocumentId, StorageError>(
                StorageError::Validation(
                    spec_shape_fault(
                        cfg.accepted_types@,
                        file_parts as int,
                        spec_opt_bytes(declared_type),
                    ),
                ),
            ))
            &&& (shape && content.len() > cfg.size_ceiling ==> r == Err::<
                DocumentId,
                StorageError,
            >(StorageError::Validation(ValidationFault::Oversized)))
            &&& (shape && content.len() <= cfg.size_ceiling && old(storage).docs().contains_key(id)
                ==> r == Err::<DocumentId, StorageError>(StorageError::StorageFailure))
        }),
{
    let mut session = match IngestSession::start(storage, cfg, hi, lo, file_parts, declared_type) {
        Ok(s) => s,
        Err(e) => {
            return Err(e);
        }
    };
    let ghost id = DocumentId { hi, lo };
    let mut i: usize = 0;
    while i < chunks.len()
        invariant
            i <= chunks.len(),
            spec_shape_ok(cfg.accepted_types@, file_parts as int, spec_opt_bytes(declared_type)),
            storage.wf(),
            *storage == *old(storage),
            session.wf(),
            session.spec_id() == id,
            session.ceiling() == cfg.size_ceiling,
            session.staged() == concat_chunks(chunks@.subrange(0, i as int)),
        decreases chunks.len() - i,
    {
        let chunk: &Vec<u8> = &chunks[i];
        session = match session.feed(chunk.as_slice()) {
            Ok(s) => s,
            Err(e) => {
                proof {
                    lemma_concat_prefix_step(chunks@, i as int);
                    lemma_concat_prefix_len(chunks@, i as int + 1);
                }
                return Err(e);
            }
        };
        proof {
            lemma_concat_prefix_step(chunks@, i as int);
        }
        i = i + 1;
    }
    proof {
        assert(chunks@.subrange(0, chunks.len() as int) =~= chunks@);
    }
    session.finish(storage)
}

} // verus!
