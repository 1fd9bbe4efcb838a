//! The authorization gates. `RequiresAuth` admits a request when its
//! capability key names a registered user; it protects creation, where no
//! object exists yet to check ownership against. `RequiresOwnership` admits
//! a request only when the key's owner owns the targeted path; it protects
//! overwrite, delete, and move. Both are pure filters: a missing key, an
//! unknown key, and a key that does not own the target are all rejected
//! alike, so a client learns nothing about what exists.

use vstd::prelude::*;

use crate::metadata::MetadataStore;

verus! {

/// Factory for the authentication gate.
pub struct RequiresAuth;

/// The authentication gate: key present and registered.
pub struct RequiresAuthMiddleware {}

/// Factory for the ownership gate.
pub struct RequiresOwnership;

/// The ownership gate: key present and owning the targeted path.
pub struct RequiresOwnershipMiddleware {}

impl RequiresAuth {
    /// Builds the filter that runs before each handler.
    pub fn new_transform(&self) -> (m: RequiresAuthMiddleware) {
        RequiresAuthMiddleware {  }
    }
}

impl RequiresAuthMiddleware {
    /// Admits a request exactly when the capability key is present and a
    /// registered user presents it.
    pub fn call(&self, store: &MetadataStore, key: Option<&str>) -> (admitted: bool)
        ensures
            admitted == match key {
                Some(k) => store.spec_key_exists(k@),
                None => false,
            },
    {
        match key {
            None => false,
            Some(k) => store.user_id_for_key(k).is_some(),
        }
    }
}

impl RequiresOwnership {
    /// Builds the filter that runs before each handler.
    pub fn new_transform(&self) -> (m: RequiresOwnershipMiddleware) {
        RequiresOwnershipMiddleware {  }
    }
}

impl RequiresOwnershipMiddleware {
    /// Admits a request exactly when the capability key is present and the
    /// join of users and uploads on `(key, file_path)` yields a row: the
    /// key's owner owns the targeted path.
    pub fn call(&self, store: &MetadataStore, key: Option<&str>, path: &str) -> (admitted: bool)
        requires
            store.wf(),
        ensures
            admitted == match key {
                Some(k) => store.spec_owns(k@, path@),
                None => false,
            },
    {
        let k = match key {
            None => {
                return false;
            },
            Some(k) => k,
        };
        let uid = match store.user_id_for_key(k) {
            None => {
                return false;
            },
            Some(uid) => uid,
        };
        let owner = match store.owner_of_path(path) {
            None => {
                return false;
            },
            Some(owner) => owner,
        };
        proof {
            lemma_join_agrees(*store, k@, path@, uid, owner);
        }
        owner == uid
    }
}

/// Under the store's uniqueness invariants, the ownership join holds
/// exactly when the key's user is the path's owner.
proof fn lemma_join_agrees(store: MetadataStore, key: Seq<char>, path: Seq<char>, uid: u64, owner: u64)
    requires
        store.wf(),
        exists|i: int|
            0 <= i < store.users@.len() && store.users@[i].key@ == key && store.users@[i].id
                == uid,
        exists|j: int|
            0 <= j < store.uploads@.len() && store.uploads@[j].file_path@ == path
                && store.uploads@[j].uploader == owner,
    ensures
        store.spec_owns(key, path) <==> owner == uid,
{
    let i0 = choose|i: int|
        0 <= i < store.users@.len() && store.users@[i].key@ == key && store.users@[i].id == uid;
    let j0 = choose|j: int|
        0 <= j < store.uploads@.len() && store.uploads@[j].file_path@ == path
            && store.uploads@[j].uploader == owner;
    if owner == uid {
        assert(store.spec_owns(key, path)) by {
            assert(0 <= i0 < store.users@.len() && 0 <= j0 < store.uploads@.len()
                && store.users@[i0].key@ == key && store.uploads@[j0].file_path@ == path
                && store.uploads@[j0].uploader == store.users@[i0].id);
        }
    }
    if store.spec_owns(key, path) {
        let (i, j) = choose|i: int, j: int|
            0 <= i < store.users@.len() && 0 <= j < store.uploads@.len() && store.users@[i].key@
                == key && store.uploads@[j].file_path@ == path && store.uploads@[j].uploader
                == store.users@[i].id;
        assert(i == i0);
        assert(j == j0);
    }
}

} // verus!
