//! The storage system: document-level operations over one backend driver.
//!
//! The system owns exactly one driver for the process lifetime and
//! translates document operations into driver calls: it turns caller
//! entropy into a fresh `DocumentId`, derives the storage key, streams the
//! payload into a staged write and returns the identifier only once the
//! driver has acknowledged the commit. Its state is the map from issued
//! identifiers to immutable byte sequences.

use vstd::prelude::*;

use crate::driver::{MemDriver, StagedWrite};
use crate::error::StorageError;
use crate::id::{spec_key_of, key_of, DocumentId, StorageKey};

verus! {

/// A storage key that the derivation function can produce.
pub open spec fn is_derived_key(k: StorageKey) -> bool {
    k.shard == (k.hi >> 56) as u8
}

/// The unique identifier a derived key came from.
pub proof fn lemma_derived_key_preimage(k: StorageKey, id: DocumentId)
    requires
        is_derived_key(k),
    ensures
        spec_key_of(id) == k <==> id == (DocumentId { hi: k.hi, lo: k.lo }),
{
}

/// An in-flight store: an identifier picked from caller entropy and the
/// staged bytes under its derived key. Until `commit_store` succeeds the
/// identifier is not issued and nothing is visible to readers; dropping a
/// pending store (a disconnected client) discards the bytes.
#[derive(Debug)]
pub struct PendingStore {
    id: DocumentId,
    staged: StagedWrite,
}

impl PendingStore {
    /// The identifier this store will issue if it commits.
    pub closed spec fn spec_id(&self) -> DocumentId {
        self.id
    }

    /// The bytes staged so far.
    pub closed spec fn staged(&self) -> Seq<u8> {
        self.staged.staged()
    }

    /// The staged bytes sit under the key derived from the identifier.
    pub closed spec fn wf(&self) -> bool {
        self.staged.spec_key() == spec_key_of(self.id)
    }

    /// Appends one chunk of the incoming payload to the staging area.
    pub fn write(&mut self, chunk: &[u8])
        requires
            old(self).wf(),
        ensures
            final(self).wf(),
            final(self).spec_id() == old(self).spec_id(),
            final(self).staged() == old(self).staged() + chunk@,
    {
        self.staged.append(chunk);
    }

    /// The number of bytes staged so far.
    pub fn staged_len(&self) -> (n: usize)
        ensures
            n == self.staged().len(),
    {
        self.staged.staged_len()
    }

    /// Abandons the in-flight store. The staged bytes are discarded and no
    /// identifier is issued; the storage system is untouched, so readers
    /// can never observe a partial object.
    pub fn abort(self) {
    }
}

/// The storage system: one driver, one map of committed documents.
pub struct StorageSystem {
    driver: MemDriver,
}

impl StorageSystem {
    /// Well-formed: the driver is, and every committed key is one the
    /// derivation function produces, so it resolves to an identifier.
    pub closed spec fn wf(&self) -> bool {
        &&& self.driver.wf()
        &&& forall|k: StorageKey|
            #[trigger] self.driver.committed().contains_key(k) ==> is_derived_key(k)
    }

    /// The committed documents: issued identifier to immutable content.
    pub closed spec fn docs(&self) -> Map<DocumentId, Seq<u8>> {
        Map::new(
            |id: DocumentId| self.driver.committed().contains_key(spec_key_of(id)),
            |id: DocumentId| self.driver.committed()[spec_key_of(id)],
        )
    }

    /// A fresh storage system with no documents.
    pub fn new() -> (s: StorageSystem)
        ensures
            s.wf(),
            s.docs() == Map::<DocumentId, Seq<u8>>::empty(),
    {
        let s = StorageSystem { driver: MemDriver::new() };
        proof {
            assert(s.docs() =~= Map::<DocumentId, Seq<u8>>::empty());
        }
        s
    }

    /// Inserting one derived key into the driver inserts one document.
    proof fn lemma_docs_insert(pre: StorageSystem, post: StorageSystem, id: DocumentId, v: Seq<u8>)
        requires
            pre.wf(),
            post.driver.wf(),
            post.driver.committed() == pre.driver.committed().insert(spec_key_of(id), v),
        ensures
            post.wf(),
            post.docs() == pre.docs().insert(id, v),
    {
        assert forall|k: StorageKey| #[trigger]
            post.driver.committed().contains_key(k) implies is_derived_key(k) by {
            if k != spec_key_of(id) {
                assert(pre.driver.committed().contains_key(k));
            }
        }
        assert forall|x: DocumentId| #[trigger]
            post.docs().contains_key(x) == pre.docs().insert(id, v).contains_key(x) && (
            post.docs().contains_key(x) ==> post.docs()[x] == pre.docs().insert(id, v)[x]) by {
            if x != id {
                assert(spec_key_of(x) != spec_key_of(id));
            }
        }
        assert(post.docs() =~= pre.docs().insert(id, v));
    }

    /// Removing one derived key from the driver removes one document.
    proof fn lemma_docs_remove(pre: StorageSystem, post: StorageSystem, id: DocumentId)
        requires
            pre.wf(),
            post.driver.wf(),
            post.driver.committed() == pre.driver.committed().remove(spec_key_of(id)),
        ensures
            post.wf(),
            post.docs() == pre.docs().remove(id),
    {
        assert forall|k: StorageKey| #[trigger]
            post.driver.committed().contains_key(k) implies is_derived_key(k) by {
            assert(pre.driver.committed().contains_key(k));
        }
        assert forall|x: DocumentId| #[trigger]
            post.docs().contains_key(x) == pre.docs().remove(id).contains_key(x) && (
            post.docs().contains_key(x) ==> post.docs()[x] == pre.docs().remove(id)[x]) by {
            if x != id {
                assert(spec_key_of(x) != spec_key_of(id));
            }
        }
        assert(post.docs() =~= pre.docs().remove(id));
    }

    /// Opens a streaming store. The identifier is built from the two words
    /// of entropy the caller drew; nothing is issued or visible yet.
    pub fn begin_store(&self, hi: u64, lo: u64) -> (p: PendingStore)
        ensures
            p.wf(),
            p.spec_id() == (DocumentId { hi, lo }),
            p.staged() == Seq::<u8>::empty(),
    {
        let id = DocumentId::from_entropy(hi, lo);
        let key = key_of(&id);
        PendingStore { id, staged: StagedWrite::begin(key) }
    }

    /// Atomically commits an in-flight store and issues its identifier.
    ///
    /// Succeeds exactly when the identifier is not already taken
    /// (documents are write-once, identifiers are never reused); then the
    /// staged bytes are durably readable under the new identifier and every
    /// other document is untouched. On failure no identifier is issued and
    /// the committed documents are exactly as before.
    pub fn commit_store(&mut self, pending: PendingStore) -> (r: Result<DocumentId, StorageError>)
        requires
            old(self).wf(),
            pending.wf(),
        ensures
            final(self).wf(),
            r is Ok <==> !old(self).docs().contains_key(pending.spec_id()),
            r is Ok ==> r == Ok::<DocumentId, StorageError>(pending.spec_id()) && final(self).docs()
                == old(self).docs().insert(pending.spec_id(), pending.staged()),
            r is Err ==> final(self).docs() == old(self).docs() && r == Err::<
                DocumentId,
                StorageError,
            >(StorageError::StorageFailure),
    {
        let ghost pre = *self;
        let PendingStore { id, staged } = pending;
        match self.driver.commit_put(staged) {
            Ok(()) => {
                proof {
                    StorageSystem::lemma_docs_insert(pre, *self, id, pending.staged());
                }
                Ok(id)
            }
            Err(e) => {
                proof {
                    assert(self.docs() =~= pre.docs());
                }
                Err(e)
            }
        }
    }

    /// Stores a whole payload in one call: open, stage, commit.
    pub fn store(&mut self, hi: u64, lo: u64, content: &[u8]) -> (r: Result<
        DocumentId,
        StorageError,
    >)
        requires
            old(self).wf(),
        ensures
            final(self).wf(),
            r is Ok <==> !old(self).docs().contains_key(DocumentId { hi, lo }),
            r is Ok ==> r == Ok::<DocumentId, StorageError>(DocumentId { hi, lo })
                && final(self).docs() == old(self).docs().insert(DocumentId { hi, lo }, content@),
            r is Err ==> final(self).docs() == old(self).docs() && r == Err::<
                DocumentId,
                StorageError,
            >(StorageError::StorageFailure),
    {
        let mut pending = self.begin_store(hi, lo);
        pending.write(content);
        proof {
            assert(Seq::<u8>::empty() + content@ == content@);
        }
        self.commit_store(pending)
    }

    /// Resolves an identifier to the committed content.
    ///
    /// Returns the full byte sequence of the document exactly when the
    /// identifier was issued and not since removed; `NotFound` otherwise.
    pub fn fetch(&self, id: &DocumentId) -> (r: Result<&Vec<u8>, StorageError>)
        requires
            self.wf(),
        ensures
            match r {
                Ok(bytes) => self.docs().contains_key(*id) && bytes@ == self.docs()[*id],
                Err(e) => !self.docs().contains_key(*id) && e == StorageError::NotFound,
            },
    {
        let key = key_of(id);
        match self.driver.get(&key) {
            Some(bytes) => Ok(bytes),
            None => Err(StorageError::NotFound),
        }
    }

    /// Whether an identifier currently resolves to a document.
    pub fn contains_document(&self, id: &DocumentId) -> (r: bool)
        requires
            self.wf(),
        ensures
            r == self.docs().contains_key(*id),
    {
        let key = key_of(id);
        self.driver.exists_key(&key)
    }

    /// Lists the identifiers of all committed documents: each issued and
    /// not-removed identifier exactly once, and nothing else. Pagination,
    /// where wanted, is the caller's.
    pub fn list_documents(&self) -> (r: Vec<DocumentId>)
        requires
            self.wf(),
        ensures
            forall|i: int| 0 <= i < r@.len() ==> self.docs().contains_key(#[trigger] r@[i]),
            forall|id: DocumentId| #[trigger]
                self.docs().contains_key(id) ==> exists|i: int| 0 <= i < r@.len() && r@[i] == id,
            forall|i: int, j: int| 0 <= i < j < r@.len() ==> r@[i] != r@[j],
    {
        let keys = self.driver.keys();
        let mut out: Vec<DocumentId> = Vec::new();
        let mut i: usize = 0;
        while i < keys.len()
            invariant
                i <= keys.len(),
                out@.len() == i,
                forall|j: int|
                    0 <= j < i ==> #[trigger] out@[j] == (DocumentId {
                        hi: keys@[j].hi,
                        lo: keys@[j].lo,
                    }),
            decreases keys.len() - i,
        {
            let k = &keys[i];
            out.push(DocumentId { hi: k.hi, lo: k.lo });
            i = i + 1;
        }
        proof {
            assert forall|j: int|
                0 <= j < out@.len() implies self.docs().contains_key(#[trigger] out@[j]) by {
                assert(self.driver.committed().contains_key(keys@[j]));
                assert(is_derived_key(keys@[j]));
                assert(spec_key_of(out@[j]) == keys@[j]);
            }
            assert forall|id: DocumentId| #[trigger]
                self.docs().contains_key(id) implies exists|j: int|
                0 <= j < out@.len() && out@[j] == id by {
                assert(self.driver.committed().contains_key(spec_key_of(id)));
                let j = choose|j: int| 0 <= j < keys@.len() && keys@[j] == spec_key_of(id);
                assert(out@[j] == id);
            }
            assert forall|a: int, b: int|
                0 <= a < b < out@.len() implies out@[a] != out@[b] by {
                assert(self.driver.committed().contains_key(keys@[a]));
                assert(self.driver.committed().contains_key(keys@[b]));
                assert(is_derived_key(keys@[a]));
                assert(is_derived_key(keys@[b]));
                assert(keys@[a] != keys@[b]);
            }
        }
        out
    }

    /// Removes a document and its physical object together.
    ///
    /// Idempotent: removing an unknown or already-removed identifier
    /// succeeds and changes nothing. The result reports whether a document
    /// existed.
    pub fn remove(&mut self, id: &DocumentId) -> (r: Result<bool, StorageError>)
        requires
            old(self).wf(),
        ensures
            final(self).wf(),
            r == Ok::<bool, StorageError>(old(self).docs().contains_key(*id)),
            final(self).docs() == old(self).docs().remove(*id),
            !final(self).docs().contains_key(*id),
    {
        let ghost pre = *self;
        let key = key_of(id);
        let existed = self.driver.delete(&key);
        proof {
            StorageSystem::lemma_docs_remove(pre, *self, *id);
        }
        Ok(existed)
    }
}

} // verus!
