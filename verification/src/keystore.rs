//! The keystore directory: read-only configuration lookup.
//!
//! A keystore is a named group of key/value configuration entries — for
//! instance the credentials of one remote backend. The storage core
//! consumes the directory only through `get_config_value`, once, while a
//! backend is initialised; it never mutates keystore data. The directory
//! is built at bootstrap from whatever persistence layer holds the
//! entries and is immutable afterwards.

use vstd::prelude::*;

use crate::error::StorageError;
use crate::bytes::bytes_eq;

verus! {

/// One configuration row: the keystore it belongs to, the configuration
/// key, and the value.
pub struct ConfigEntry {
    pub keystore: Vec<u8>,
    pub key: Vec<u8>,
    pub value: Vec<u8>,
}

/// A read-only directory of keystore configuration entries.
pub struct KeystoreDirectory {
    entries: Vec<ConfigEntry>,
}

impl KeystoreDirectory {
    /// Well-formed: no (keystore, key) pair occurs twice.
    pub closed spec fn wf(&self) -> bool {
        forall|i: int, j: int|
            0 <= i < j < self.entries@.len() ==> !((#[trigger] self.entries@[i]).keystore@
                == (#[trigger] self.entries@[j]).keystore@ && self.entries@[i].key@
                == self.entries@[j].key@)
    }

    /// Whether some entry carries the pair.
    pub closed spec fn has_pair(&self, ks: Seq<u8>, key: Seq<u8>) -> bool {
        exists|i: int|
            0 <= i < self.entries@.len() && (#[trigger] self.entries@[i]).keystore@ == ks
                && self.entries@[i].key@ == key
    }

    /// The index of the entry carrying the pair, where one exists.
    pub closed spec fn index_of(&self, ks: Seq<u8>, key: Seq<u8>) -> int {
        choose|i: int|
            0 <= i < self.entries@.len() && (#[trigger] self.entries@[i]).keystore@ == ks
                && self.entries@[i].key@ == key
    }

    /// The directory as a map from (keystore, key) to value.
    pub closed spec fn lookup(&self) -> Map<(Seq<u8>, Seq<u8>), Seq<u8>> {
        Map::new(
            |p: (Seq<u8>, Seq<u8>)| self.has_pair(p.0, p.1),
            |p: (Seq<u8>, Seq<u8>)| self.entries@[self.index_of(p.0, p.1)].value@,
        )
    }

    /// An empty directory.
    pub fn new() -> (d: KeystoreDirectory)
        ensures
            d.wf(),
            d.lookup() == Map::<(Seq<u8>, Seq<u8>), Seq<u8>>::empty(),
    {
        let d = KeystoreDirectory { entries: Vec::new() };
        proof {
            assert(d.lookup() =~= Map::<(Seq<u8>, Seq<u8>), Seq<u8>>::empty());
        }
        d
    }

    /// The entry at slot `i` is reachable under its pair.
    proof fn lemma_entry_at(&self, i: int)
        requires
            self.wf(),
            0 <= i < self.entries@.len(),
        ensures
            self.has_pair(self.entries@[i].keystore@, self.entries@[i].key@),
            self.lookup().contains_key((self.entries@[i].keystore@, self.entries@[i].key@)),
            self.lookup()[(self.entries@[i].keystore@, self.entries@[i].key@)]
                == self.entries@[i].value@,
    {
        let ks = self.entries@[i].keystore@;
        let key = self.entries@[i].key@;
        assert(0 <= i < self.entries@.len() && (#[trigger] self.entries@[i]).keystore@ == ks
            && self.entries@[i].key@ == key);
        let j = self.index_of(ks, key);
        if j != i {
            if j < i {
                assert(!(self.entries@[j].keystore@ == self.entries@[i].keystore@
                    && self.entries@[j].key@ == self.entries@[i].key@));
            } else {
                assert(!(self.entries@[i].keystore@ == self.entries@[j].keystore@
                    && self.entries@[i].key@ == self.entries@[j].key@));
            }
        }
        assert(j == i);
    }

    /// Linear scan for the entry of a pair.
    fn find_entry(&self, keystore: &[u8], key: &[u8]) -> (r: Option<usize>)
        requires
            self.wf(),
        ensures
            match r {
                Some(i) => i < self.entries@.len() && self.entries@[i as int].keystore@
                    == keystore@ && self.entries@[i as int].key@ == key@,
                None => !self.has_pair(keystore@, key@),
            },
    {
        let mut i: usize = 0;
        while i < self.entries.len()
            invariant
                i <= self.entries.len(),
                forall|j: int|
                    0 <= j < i ==> !((#[trigger] self.entries@[j]).keystore@ == keystore@
                        && self.entries@[j].key@ == key@),
            decreases self.entries.len() - i,
        {
            let e = &self.entries[i];
            if bytes_eq(e.keystore.as_slice(), keystore) && bytes_eq(e.key.as_slice(), key) {
                return Some(i);
            }
            i = i + 1;
        }
        None
    }

    /// Reads one configuration value: the value bound to `key` in the
    /// named keystore, or `NotFound` when the keystore has no such key.
    pub fn get_config_value(&self, keystore: &[u8], key: &[u8]) -> (r: Result<
        &Vec<u8>,
        StorageError,
    >)
        requires
            self.wf(),
        ensures
            match r {
                Ok(v) => self.lookup().contains_key((keystore@, key@)) && v@ == self.lookup()[
                    (keystore@, key@)
                ],
                Err(e) => !self.lookup().contains_key((keystore@, key@)) && e
                    == StorageError::NotFound,
            },
    {
        match self.find_entry(keystore, key) {
            Some(i) => {
                proof {
                    self.lemma_entry_at(i as int);
                }
                Ok(&self.entries[i].value)
            }
            None => Err(StorageError::NotFound),
        }
    }

    /// Adds one entry while the directory is being built at bootstrap.
    /// Refused — leaving the directory unchanged — when the pair is
    /// already bound: entries are never overwritten.
    pub fn add(&mut self, entry: ConfigEntry) -> (r: bool)
        requires
            old(self).wf(),
        ensures
            final(self).wf(),
            r == !old(self).lookup().contains_key((entry.keystore@, entry.key@)),
            r ==> final(self).lookup() == old(self).lookup().insert(
                (entry.keystore@, entry.key@),
                entry.value@,
            ),
            !r ==> final(self).lookup() == old(self).lookup(),
    {
        match self.find_entry(entry.keystore.as_slice(), entry.key.as_slice()) {
            Some(i) => {
                proof {
                    self.lemma_entry_at(i as int);
                }
                false
            }
            None => {
                let ghost pre = *self;
                self.entries.push(entry);
                proof {
                    KeystoreDirectory::lemma_push_fresh(pre, *self, entry.keystore@, entry.key@);
                }
                true
            }
        }
    }

    /// Pushing an entry under a vacant pair extends the lookup map by
    /// exactly that binding.
    proof fn lemma_push_fresh(
        pre: KeystoreDirectory,
        post: KeystoreDirectory,
        ks: Seq<u8>,
        key: Seq<u8>,
    )
        requires
            pre.wf(),
            !pre.has_pair(ks, key),
            post.entries@.len() == pre.entries@.len() + 1,
            forall|j: int| 0 <= j < pre.entries@.len() ==> post.entries@[j] == pre.entries@[j],
            post.entries@.last().keystore@ == ks,
            post.entries@.last().key@ == key,
        ensures
            post.wf(),
            post.lookup() == pre.lookup().insert((ks, key), post.entries@.last().value@),
    {
        let n = pre.entries@.len() as int;
        assert forall|i: int, j: int|
            0 <= i < j < post.entries@.len() implies !((#[trigger] post.entries@[i]).keystore@ == (
        #[trigger] post.entries@[j]).keystore@ && post.entries@[i].key@
            == post.entries@[j].key@) by {
            if j < n {
                assert(!(pre.entries@[i].keystore@ == pre.entries@[j].keystore@
                    && pre.entries@[i].key@ == pre.entries@[j].key@));
            } else {
                if post.entries@[i].keystore@ == ks && post.entries@[i].key@ == key {
                    assert(0 <= i < pre.entries@.len() && (#[trigger] pre.entries@[i]).keystore@
                        == ks && pre.entries@[i].key@ == key);
                }
            }
        }
        let v = post.entries@.last().value@;
        assert forall|p: (Seq<u8>, Seq<u8>)| #[trigger]
            post.lookup().contains_key(p) implies pre.lookup().insert((ks, key), v).contains_key(p)
            && post.lookup()[p] == pre.lookup().insert((ks, key), v)[p] by {
            let i = post.index_of(p.0, p.1);
            assert(0 <= i < post.entries@.len() && post.entries@[i].keystore@ == p.0
                && post.entries@[i].key@ == p.1);
            post.lemma_entry_at(i);
            if i < n {
                pre.lemma_entry_at(i);
                assert(p != (ks, key));
            } else {
                assert(p.0 == ks && p.1 == key);
                assert(p == (ks, key));
            }
        }
        assert forall|p: (Seq<u8>, Seq<u8>)| #[trigger]
            pre.lookup().insert((ks, key), v).contains_key(p) implies post.lookup().contains_key(
            p,
        ) by {
            if p == (ks, key) {
                post.lemma_entry_at(n);
            } else {
                let i = pre.index_of(p.0, p.1);
                assert(0 <= i < pre.entries@.len() && pre.entries@[i].keystore@ == p.0
                    && pre.entries@[i].key@ == p.1);
                post.lemma_entry_at(i);
            }
        }
        assert(post.lookup() =~= pre.lookup().insert((ks, key), v));
    }
}

} // verus!
