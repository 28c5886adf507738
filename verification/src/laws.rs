//! The laws of the storage system, stated over its model.
//!
//! Each law speaks of the `docs()` map that the operation contracts in
//! `storage` are stated over, so together with those contracts it holds of
//! the executable operations themselves.

use vstd::prelude::*;

use crate::id::DocumentId;
use crate::storage::StorageSystem;

verus! {

/// Round trip: after a successful store of `content` under the returned
/// identifier, that identifier resolves, byte for byte, to `content` —
/// so a fetch (whose contract returns `docs()[id]`) yields exactly what
/// was uploaded.
pub proof fn lemma_store_fetch_round_trip(
    pre: StorageSystem,
    post: StorageSystem,
    id: DocumentId,
    content: Seq<u8>,
)
    requires
        post.docs() == pre.docs().insert(id, content),
    ensures
        post.docs().contains_key(id),
        post.docs()[id] == content,
{
}

/// A store issues only its own identifier: any identifier that no
/// successful store returned is as unresolvable after the store as
/// before, so a fetch of it still returns `NotFound`.
pub proof fn lemma_store_adds_only_issued(
    pre: StorageSystem,
    post: StorageSystem,
    id: DocumentId,
    content: Seq<u8>,
    other: DocumentId,
)
    requires
        post.docs() == pre.docs().insert(id, content),
        other != id,
        !pre.docs().contains_key(other),
    ensures
        !post.docs().contains_key(other),
{
}

/// Two successful stores — however their executions interleaved, each
/// commit is atomic and ordered — issue distinct identifiers, and neither
/// disturbs the other's content: no collision, no cross-contamination.
pub proof fn lemma_stores_issue_distinct_ids(
    s0: StorageSystem,
    s1: StorageSystem,
    s2: StorageSystem,
    id1: DocumentId,
    c1: Seq<u8>,
    id2: DocumentId,
    c2: Seq<u8>,
)
    requires
        !s0.docs().contains_key(id1),
        s1.docs() == s0.docs().insert(id1, c1),
        !s1.docs().contains_key(id2),
        s2.docs() == s1.docs().insert(id2, c2),
    ensures
        id1 != id2,
        s2.docs().contains_key(id1) && s2.docs()[id1] == c1,
        s2.docs().contains_key(id2) && s2.docs()[id2] == c2,
{
}

/// An upload that never committed is invisible: whenever the committed
/// map is unchanged — as the contracts of every staging, rejecting,
/// cancelling and failing path state — every identifier resolves exactly
/// as before the upload began: to `NotFound` or to its prior committed
/// content, never to partial bytes.
pub proof fn lemma_uncommitted_upload_invisible(
    pre: StorageSystem,
    post: StorageSystem,
    id: DocumentId,
)
    requires
        post.docs() == pre.docs(),
    ensures
        post.docs().contains_key(id) == pre.docs().contains_key(id),
        pre.docs().contains_key(id) ==> post.docs()[id] == pre.docs()[id],
{
}

/// Removal touches one document alone: every other identifier resolves
/// after a remove exactly as it did before.
pub proof fn lemma_remove_preserves_others(
    pre: StorageSystem,
    post: StorageSystem,
    id: DocumentId,
    other: DocumentId,
)
    requires
        post.docs() == pre.docs().remove(id),
        other != id,
    ensures
        post.docs().contains_key(other) == pre.docs().contains_key(other),
        pre.docs().contains_key(other) ==> post.docs()[other] == pre.docs()[other],
{
}

/// Removal is effective and idempotent: after a remove the identifier no
/// longer resolves (a fetch returns `NotFound`), and removing it again
/// changes nothing — and by `remove`'s contract still succeeds.
pub proof fn lemma_remove_idempotent(pre: StorageSystem, post: StorageSystem, id: DocumentId)
    requires
        post.docs() == pre.docs().remove(id),
    ensures
        !post.docs().contains_key(id),
        post.docs().remove(id) == post.docs(),
{
    assert(post.docs().remove(id) =~= post.docs());
}

} // verus!
