//! The in-memory backend driver.
//!
//! One driver implements put/get/exists/delete against one physical medium;
//! this one keeps its objects in process memory and doubles as the reference
//! model of the driver contract. Writes go through an explicit staging area
//! (`StagedWrite`): bytes arrive chunk by chunk and nothing becomes visible
//! to readers until the single atomic `commit_put` — the equivalent of a
//! rename-on-completion strategy, so a failed or abandoned upload leaves no
//! partial object behind.

use vstd::prelude::*;

use crate::error::StorageError;
use crate::id::StorageKey;

verus! {

/// A staged, not-yet-visible write under one storage key.
///
/// Dropping a staged write (for instance when the client disconnects
/// mid-upload) discards the bytes; only `MemDriver::commit_put` publishes
/// them, atomically.
#[derive(Debug)]
pub struct StagedWrite {
    key: StorageKey,
    buf: Vec<u8>,
}

impl StagedWrite {
    /// The key the write was opened under.
    pub closed spec fn spec_key(&self) -> StorageKey {
        self.key
    }

    /// The bytes staged so far.
    pub closed spec fn staged(&self) -> Seq<u8> {
        self.buf@
    }

    /// Opens a staging area for `key`. No object becomes visible.
    pub fn begin(key: StorageKey) -> (s: StagedWrite)
        ensures
            s.spec_key() == key,
            s.staged() == Seq::<u8>::empty(),
    {
        StagedWrite { key, buf: Vec::new() }
    }

    /// Appends one chunk to the staging area.
    ///
    /// Writing is incremental — each chunk is consumed as it arrives — and
    /// no object becomes visible to readers.
    pub fn append(&mut self, chunk: &[u8])
        ensures
            final(self).spec_key() == old(self).spec_key(),
            final(self).staged() == old(self).staged() + chunk@,
    {
        let mut i: usize = 0;
        while i < chunk.len()
            invariant
                i <= chunk.len(),
                self.key == old(self).key,
                self.buf@ == old(self).buf@ + chunk@.subrange(0, i as int),
            decreases chunk.len() - i,
        {
            let b: u8 = chunk[i];
            self.buf.push(b);
            proof {
                assert(chunk@.subrange(0, i + 1) == chunk@.subrange(0, i as int).push(chunk@[i as int]));
            }
            i = i + 1;
        }
        proof {
            assert(chunk@.subrange(0, chunk.len() as int) == chunk@);
        }
    }

    /// The number of bytes staged so far.
    pub fn staged_len(&self) -> (n: usize)
        ensures
            n == self.staged().len(),
    {
        self.buf.len()
    }
}

/// The in-memory backend driver: a write-once key/value object store.
pub struct MemDriver {
    slots: Vec<(StorageKey, Vec<u8>)>,
}

impl MemDriver {
    /// Well-formed: no storage key occupies two slots.
    pub closed spec fn wf(&self) -> bool {
        forall|i: int, j: int|
            0 <= i < j < self.slots@.len() ==> (#[trigger] self.slots@[i]).0 != (#[trigger] self.slots@[j]).0
    }

    /// Whether some slot holds `k`.
    pub closed spec fn has_key(&self, k: StorageKey) -> bool {
        exists|i: int| 0 <= i < self.slots@.len() && (#[trigger] self.slots@[i]).0 == k
    }

    /// The slot index holding `k`, where one exists.
    pub closed spec fn slot_index_of(&self, k: StorageKey) -> int {
        choose|i: int| 0 <= i < self.slots@.len() && (#[trigger] self.slots@[i]).0 == k
    }

    /// The durably committed objects, as a map from key to content.
    /// Only `commit_put` and `delete` ever change it.
    pub closed spec fn committed(&self) -> Map<StorageKey, Seq<u8>> {
        Map::new(
            |k: StorageKey| self.has_key(k),
            |k: StorageKey| self.slots@[self.slot_index_of(k)].1@,
        )
    }

    /// An empty driver: no committed objects.
    pub fn new() -> (d: MemDriver)
        ensures
            d.wf(),
            d.committed() == Map::<StorageKey, Seq<u8>>::empty(),
    {
        let d = MemDriver { slots: Vec::new() };
        proof {
            assert(d.committed() =~= Map::<StorageKey, Seq<u8>>::empty());
        }
        d
    }

    /// The committed object at slot `i` is visible under its key.
    proof fn lemma_committed_at(&self, i: int)
        requires
            self.wf(),
            0 <= i < self.slots@.len(),
        ensures
            self.has_key(self.slots@[i].0),
            self.committed().contains_key(self.slots@[i].0),
            self.committed()[self.slots@[i].0] == self.slots@[i].1@,
    {
        let k = self.slots@[i].0;
        assert(0 <= i < self.slots@.len() && (#[trigger] self.slots@[i]).0 == k);
        let j = self.slot_index_of(k);
        if j != i {
            if j < i {
                assert(self.slots@[j].0 != self.slots@[i].0);
            } else {
                assert(self.slots@[i].0 != self.slots@[j].0);
            }
        }
        assert(j == i);
    }

    /// Linear scan for the slot holding `key`.
    fn find_slot(&self, key: &StorageKey) -> (r: Option<usize>)
        requires
            self.wf(),
        ensures
            match r {
                Some(i) => i < self.slots@.len() && self.slots@[i as int].0 == *key,
                None => !self.has_key(*key),
            },
    {
        let mut i: usize = 0;
        while i < self.slots.len()
            invariant
                i <= self.slots.len(),
                forall|j: int| 0 <= j < i ==> (#[trigger] self.slots@[j]).0 != *key,
            decreases self.slots.len() - i,
        {
            if self.slots[i].0 == *key {
                return Some(i);
            }
            i = i + 1;
        }
        None
    }

    /// Whether an object is durably readable under `key`.
    pub fn exists_key(&self, key: &StorageKey) -> (r: bool)
        requires
            self.wf(),
        ensures
            r == self.committed().contains_key(*key),
    {
        match self.find_slot(key) {
            Some(i) => {
                proof {
                    self.lemma_committed_at(i as int);
                }
                true
            }
            None => false,
        }
    }

    /// Reads the object under `key`: the whole committed byte sequence, or
    /// `None` when no object is visible under that key.
    pub fn get(&self, key: &StorageKey) -> (r: Option<&Vec<u8>>)
        requires
            self.wf(),
        ensures
            match r {
                Some(bytes) => self.committed().contains_key(*key) && bytes@
                    == self.committed()[*key],
                None => !self.committed().contains_key(*key),
            },
    {
        match self.find_slot(key) {
            Some(i) => {
                proof {
                    self.lemma_committed_at(i as int);
                }
                Some(&self.slots[i].1)
            }
            None => None,
        }
    }

    /// Atomically publishes a staged write.
    ///
    /// Succeeds exactly when the key is still vacant (objects are
    /// write-once); on failure nothing becomes visible. Before this call the
    /// staged bytes were never readable.
    pub fn commit_put(&mut self, staged: StagedWrite) -> (r: Result<(), StorageError>)
        requires
            old(self).wf(),
        ensures
            final(self).wf(),
            r is Ok <==> !old(self).committed().contains_key(staged.spec_key()),
            r is Ok ==> final(self).committed() == old(self).committed().insert(
                staged.spec_key(),
                staged.staged(),
            ),
            r is Err ==> final(self).committed() == old(self).committed() && r == Err::<
                (),
                StorageError,
            >(StorageError::StorageFailure),
    {
        let StagedWrite { key, buf } = staged;
        match self.find_slot(&key) {
            Some(i) => {
                proof {
                    self.lemma_committed_at(i as int);
                }
                Err(StorageError::StorageFailure)
            }
            None => {
                let ghost pre = *self;
                self.slots.push((key, buf));
                proof {
                    MemDriver::lemma_push_fresh(pre, *self, key);
                }
                Ok(())
            }
        }
    }

    /// Pushing a slot under a vacant key extends the committed map by
    /// exactly that object.
    proof fn lemma_push_fresh(pre: MemDriver, post: MemDriver, key: StorageKey)
        requires
            pre.wf(),
            !pre.has_key(key),
            post.slots@.len() == pre.slots@.len() + 1,
            forall|j: int| 0 <= j < pre.slots@.len() ==> post.slots@[j] == pre.slots@[j],
            post.slots@.last().0 == key,
        ensures
            post.wf(),
            post.committed() == pre.committed().insert(key, post.slots@.last().1@),
    {
        let n = pre.slots@.len() as int;
        assert forall|i: int, j: int|
            0 <= i < j < post.slots@.len() implies (#[trigger] post.slots@[i]).0 != (
        #[trigger] post.slots@[j]).0 by {
            if j < n {
                assert(pre.slots@[i].0 != pre.slots@[j].0);
            } else {
                assert(post.slots@[j].0 == key);
                if post.slots@[i].0 == key {
                    assert(0 <= i < pre.slots@.len() && (#[trigger] pre.slots@[i]).0 == key);
                }
            }
        }
        let v = post.slots@.last().1@;
        assert forall|k: StorageKey| #[trigger]
            post.committed().contains_key(k) implies pre.committed().insert(key, v).contains_key(k)
            && post.committed()[k] == pre.committed().insert(key, v)[k] by {
            let i = post.slot_index_of(k);
            assert(0 <= i < post.slots@.len() && post.slots@[i].0 == k);
            post.lemma_committed_at(i);
            if i < n {
                pre.lemma_committed_at(i);
                assert(k != key);
            } else {
                assert(k == key);
            }
        }
        assert forall|k: StorageKey| #[trigger]
            pre.committed().insert(key, v).contains_key(k) implies post.committed().contains_key(
            k,
        ) by {
            if k == key {
                post.lemma_committed_at(n);
            } else {
                let i = pre.slot_index_of(k);
                assert(0 <= i < pre.slots@.len() && pre.slots@[i].0 == k);
                post.lemma_committed_at(i);
            }
        }
        assert(post.committed() =~= pre.committed().insert(key, v));
    }

    /// Lists the keys of all committed objects: each exactly once, and
    /// nothing else.
    pub fn keys(&self) -> (r: Vec<StorageKey>)
        requires
            self.wf(),
        ensures
            forall|i: int|
                0 <= i < r@.len() ==> self.committed().contains_key(#[trigger] r@[i]),
            forall|k: StorageKey| #[trigger]
                self.committed().contains_key(k) ==> exists|i: int|
                    0 <= i < r@.len() && r@[i] == k,
            forall|i: int, j: int| 0 <= i < j < r@.len() ==> r@[i] != r@[j],
    {
        let mut out: Vec<StorageKey> = Vec::new();
        let mut i: usize = 0;
        while i < self.slots.len()
            invariant
                i <= self.slots.len(),
                out@.len() == i,
                forall|j: int| 0 <= j < i ==> out@[j] == (#[trigger] self.slots@[j]).0,
            decreases self.slots.len() - i,
        {
            out.push(self.slots[i].0);
            i = i + 1;
        }
        proof {
            assert forall|j: int|
                0 <= j < out@.len() implies self.committed().contains_key(#[trigger] out@[j]) by {
                self.lemma_committed_at(j);
            }
            assert forall|k: StorageKey| #[trigger]
                self.committed().contains_key(k) implies exists|j: int|
                0 <= j < out@.len() && out@[j] == k by {
                let j = self.slot_index_of(k);
                assert(out@[j] == k);
            }
            assert forall|a: int, b: int| 0 <= a < b < out@.len() implies out@[a] != out@[b] by {
                assert(self.slots@[a].0 != self.slots@[b].0);
            }
        }
        out
    }

    /// Deletes the object under `key`, where one exists. Idempotent:
    /// deleting a vacant key succeeds and changes nothing.
    pub fn delete(&mut self, key: &StorageKey) -> (existed: bool)
        requires
            old(self).wf(),
        ensures
            final(self).wf(),
            existed == old(self).committed().contains_key(*key),
            final(self).committed() == old(self).committed().remove(*key),
    {
        let ghost pre = *self;
        match self.find_slot(key) {
            Some(i) => {
                proof {
                    self.lemma_committed_at(i as int);
                }
                let _removed = self.slots.remove(i);
                proof {
                    pre.lemma_remove_slot(*self, i as int, *key);
                }
                true
            }
            None => {
                proof {
                    assert(self.committed() =~= self.committed().remove(*key));
                }
                false
            }
        }
    }

    /// Removing the unique slot of `key` removes exactly that object.
    proof fn lemma_remove_slot(&self, post: MemDriver, i: int, key: StorageKey)
        requires
            self.wf(),
            0 <= i < self.slots@.len(),
            self.slots@[i].0 == key,
            post.slots@ == self.slots@.remove(i),
        ensures
            post.wf(),
            post.committed() == self.committed().remove(key),
    {
        let n = self.slots@.len() as int;
        // Each surviving slot is one of the old slots, shifted past `i`.
        assert forall|j: int| 0 <= j < post.slots@.len() implies (#[trigger] post.slots@[j]) == (
        if j < i {
            self.slots@[j]
        } else {
            self.slots@[j + 1]
        }) by {
            assert(post.slots@[j] == self.slots@.remove(i)[j]);
        }
        assert forall|a: int, b: int|
            0 <= a < b < post.slots@.len() implies (#[trigger] post.slots@[a]).0 != (
        #[trigger] post.slots@[b]).0 by {
            let a0 = if a < i { a } else { a + 1 };
            let b0 = if b < i { b } else { b + 1 };
            assert(self.slots@[a0].0 != self.slots@[b0].0);
        }
        assert forall|k: StorageKey| #[trigger]
            post.committed().contains_key(k) implies self.committed().remove(key).contains_key(k)
            && post.committed()[k] == self.committed().remove(key)[k] by {
            let j = post.slot_index_of(k);
            assert(0 <= j < post.slots@.len() && post.slots@[j].0 == k);
            post.lemma_committed_at(j);
            let j0 = if j < i { j } else { j + 1 };
            self.lemma_committed_at(j0);
            if k == key {
                // Two old slots would hold `key`: the removed one and j0.
                if j0 < i {
                    assert(self.slots@[j0].0 != self.slots@[i].0);
                } else {
                    assert(self.slots@[i].0 != self.slots@[j0].0);
                }
            }
        }
        assert forall|k: StorageKey| #[trigger]
            self.committed().remove(key).contains_key(k) implies post.committed().contains_key(
            k,
        ) by {
            let j0 = self.slot_index_of(k);
            assert(0 <= j0 < self.slots@.len() && self.slots@[j0].0 == k);
            assert(j0 != i);
            let j = if j0 < i { j0 } else { j0 - 1 };
            assert(post.slots@[j].0 == k);
            post.lemma_committed_at(j);
        }
        assert(post.committed() =~= self.committed().remove(key));
    }
}

} // verus!
