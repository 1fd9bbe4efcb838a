//! The metadata store: registered users and the mapping from public object
//! paths to their owning user. Models the relational store of the service.

use vstd::prelude::*;

use crate::FileError;

verus! {

/// A registered user: an integer identity and its opaque capability key.
/// Users are created out of band and never mutated by the core.
pub struct UserRecord {
    pub id: u64,
    pub key: String,
}

/// One upload row: the public object path and the owning user.
pub struct UploadRecord {
    pub file_path: String,
    pub uploader: u64,
}

/// Persistent mapping from object paths to owning users, plus the table of
/// registered users that capability keys are matched against.
pub struct MetadataStore {
    pub users: Vec<UserRecord>,
    pub uploads: Vec<UploadRecord>,
}

impl MetadataStore {
    /// Keys identify users, identities are unique, and each object path has
    /// exactly one row.
    pub open spec fn wf(self) -> bool {
        &&& forall|i: int, j: int|
            0 <= i < j < self.users@.len() ==> self.users@[i].key@ != self.users@[j].key@
                && self.users@[i].id != self.users@[j].id
        &&& forall|i: int, j: int|
            0 <= i < j < self.uploads@.len() ==> self.uploads@[i].file_path@
                != self.uploads@[j].file_path@
    }

    /// Some registered user presents this capability key.
    pub open spec fn spec_key_exists(self, key: Seq<char>) -> bool {
        exists|i: int| 0 <= i < self.users@.len() && self.users@[i].key@ == key
    }

    /// Some registered user has this identity.
    pub open spec fn spec_id_exists(self, id: u64) -> bool {
        exists|i: int| 0 <= i < self.users@.len() && self.users@[i].id == id
    }

    /// A metadata row exists for this object path.
    pub open spec fn spec_path_exists(self, path: Seq<char>) -> bool {
        exists|j: int| 0 <= j < self.uploads@.len() && self.uploads@[j].file_path@ == path
    }

    /// The ownership join: the user presenting `key` owns the row for
    /// `path`. Holds exactly when joining users and uploads on
    /// `(key, file_path)` yields a row.
    pub open spec fn spec_owns(self, key: Seq<char>, path: Seq<char>) -> bool {
        exists|i: int, j: int|
            0 <= i < self.users@.len() && 0 <= j < self.uploads@.len() && self.users@[i].key@
                == key && self.uploads@[j].file_path@ == path && self.uploads@[j].uploader
                == self.users@[i].id
    }

    /// An empty store: no users, no uploads.
    pub fn new() -> (s: Self)
        ensures
            s.wf(),
            s.users@.len() == 0,
            s.uploads@.len() == 0,
    {
        MetadataStore { users: Vec::new(), uploads: Vec::new() }
    }

    /// The row index for a path, if the path has one.
    fn index_of_path(&self, path: &str) -> (r: Option<usize>)
        ensures
            match r {
                Some(j) => 0 <= j < self.uploads@.len() && self.uploads@[j as int].file_path@
                    == path@,
                None => !self.spec_path_exists(path@),
            },
    {
        let wanted = path.to_owned();
        let mut j: usize = 0;
        while j < self.uploads.len()
            invariant
                0 <= j <= self.uploads@.len(),
                wanted@ == path@,
                forall|k: int| 0 <= k < j ==> self.uploads@[k].file_path@ != path@,
            decreases self.uploads@.len() - j,
        {
            if self.uploads[j].file_path == wanted {
                return Some(j);
            }
            j = j + 1;
        }
        None
    }

    /// Registers a user out of band. Refused when the key or the identity
    /// is already taken.
    pub fn register_user(&mut self, id: u64, key: String) -> (r: Result<(), FileError>)
        requires
            old(self).wf(),
        ensures
            final(self).wf(),
            match r {
                Ok(()) => {
                    &&& !old(self).spec_key_exists(key@)
                    &&& !old(self).spec_id_exists(id)
                    &&& final(self).users@ == old(self).users@.push((UserRecord { id, key }))
                    &&& final(self).uploads@ == old(self).uploads@
                },
                Err(e) => {
                    &&& e == FileError::MetadataFault
                    &&& old(self).spec_key_exists(key@) || old(self).spec_id_exists(id)
                    &&& *final(self) == *old(self)
                },
            },
    {
        let mut i: usize = 0;
        while i < self.users.len()
            invariant
                *self == *old(self),
                self.wf(),
                0 <= i <= self.users@.len(),
                forall|k: int|
                    0 <= k < i ==> self.users@[k].key@ != key@ && self.users@[k].id != id,
            decreases self.users@.len() - i,
        {
            if self.users[i].key == key || self.users[i].id == id {
                return Err(FileError::MetadataFault);
            }
            i = i + 1;
        }
        self.users.push(UserRecord { id, key });
        Ok(())
    }

    /// Looks a user up by capability key, as the auth gate's query does.
    pub fn user_id_for_key(&self, key: &str) -> (r: Option<u64>)
        ensures
            match r {
                Some(id) => exists|i: int|
                    0 <= i < self.users@.len() && self.users@[i].key@ == key@
                        && self.users@[i].id == id,
                None => !self.spec_key_exists(key@),
            },
    {
        let wanted = key.to_owned();
        let mut i: usize = 0;
        while i < self.users.len()
            invariant
                0 <= i <= self.users@.len(),
                wanted@ == key@,
                forall|k: int| 0 <= k < i ==> self.users@[k].key@ != key@,
            decreases self.users@.len() - i,
        {
            if self.users[i].key == wanted {
                return Some(self.users[i].id);
            }
            i = i + 1;
        }
        None
    }

    /// Looks the owning user of a path up, as the ownership gate's join does.
    pub fn owner_of_path(&self, path: &str) -> (r: Option<u64>)
        ensures
            match r {
                Some(owner) => exists|j: int|
                    0 <= j < self.uploads@.len() && self.uploads@[j].file_path@ == path@
                        && self.uploads@[j].uploader == owner,
                None => !self.spec_path_exists(path@),
            },
    {
        match self.index_of_path(path) {
            Some(j) => Some(self.uploads[j].uploader),
            None => None,
        }
    }

    /// Inserts a fresh row. Refused when the path already has one: paths
    /// are unique across all uploads.
    pub fn insert_upload(&mut self, file_path: String, uploader: u64) -> (r: Result<
        (),
        FileError,
    >)
        requires
            old(self).wf(),
        ensures
            final(self).wf(),
            final(self).users@ == old(self).users@,
            match r {
                Ok(()) => {
                    &&& !old(self).spec_path_exists(file_path@)
                    &&& final(self).uploads@ == old(self).uploads@.push(
                        (UploadRecord { file_path, uploader }),
                    )
                },
                Err(e) => {
                    &&& e == FileError::MetadataFault
                    &&& old(self).spec_path_exists(file_path@)
                    &&& *final(self) == *old(self)
                },
            },
    {
        match self.index_of_path(file_path.as_str()) {
            Some(_) => Err(FileError::MetadataFault),
            None => {
                self.uploads.push(UploadRecord { file_path, uploader });
                Ok(())
            },
        }
    }

    /// Moves the row for `from` to the path `to`, keeping its owner.
    /// Refused when `from` has no row, or when `to` already has a distinct
    /// one (paths stay unique).
    pub fn update_path(&mut self, from: &str, to: String) -> (r: Result<(), FileError>)
        requires
            old(self).wf(),
        ensures
            final(self).wf(),
            final(self).users@ == old(self).users@,
            match r {
                Ok(()) => {
                    &&& old(self).spec_path_exists(from@)
                    &&& to@ == from@ || !old(self).spec_path_exists(to@)
                    &&& exists|j: int|
                        {
                            &&& 0 <= j < old(self).uploads@.len()
                            &&& old(self).uploads@[j].file_path@ == from@
                            &&& final(self).uploads@ == old(self).uploads@.update(
                                j,
                                (UploadRecord {
                                    file_path: to,
                                    uploader: old(self).uploads@[j].uploader,
                                }),
                            )
                        }
                },
                Err(e) => {
                    &&& *final(self) == *old(self)
                    &&& (e == FileError::NotFound <==> !old(self).spec_path_exists(from@))
                    &&& (e == FileError::MetadataFault <==> old(self).spec_path_exists(from@)
                        && to@ != from@ && old(self).spec_path_exists(to@))
                    &&& (e == FileError::NotFound || e == FileError::MetadataFault)
                },
            },
    {
        let j = match self.index_of_path(from) {
            Some(j) => j,
            None => {
                return Err(FileError::NotFound);
            },
        };
        let wanted_from = from.to_owned();
        let same = to == wanted_from;
        if !same {
            if self.index_of_path(to.as_str()).is_some() {
                return Err(FileError::MetadataFault);
            }
        }
        let uploader = self.uploads[j].uploader;
        self.uploads.set(j, UploadRecord { file_path: to, uploader });
        proof {
            let post = self.uploads@;
            let pre = old(self).uploads@;
            assert forall|m: int, n: int|
                0 <= m < n < post.len() implies post[m].file_path@ != post[n].file_path@ by {
                if m != j as int && n != j as int {
                    assert(post[m] == pre[m] && post[n] == pre[n]);
                } else if m == j as int {
                    assert(post[n] == pre[n]);
                } else {
                    assert(post[m] == pre[m]);
                }
            }
        }
        Ok(())
    }

    /// Deletes the row for a path. Refused when the path has no row.
    pub fn delete_path(&mut self, path: &str) -> (r: Result<(), FileError>)
        requires
            old(self).wf(),
        ensures
            final(self).wf(),
            final(self).users@ == old(self).users@,
            match r {
                Ok(()) => {
                    &&& !final(self).spec_path_exists(path@)
                    &&& exists|j: int|
                        {
                            &&& 0 <= j < old(self).uploads@.len()
                            &&& old(self).uploads@[j].file_path@ == path@
                            &&& final(self).uploads@ == old(self).uploads@.remove(j)
                        }
                },
                Err(e) => {
                    &&& e == FileError::NotFound
                    &&& !old(self).spec_path_exists(path@)
                    &&& *final(self) == *old(self)
                },
            },
    {
        let j = match self.index_of_path(path) {
            Some(j) => j,
            None => {
                return Err(FileError::NotFound);
            },
        };
        self.uploads.remove(j);
        proof {
            let post = self.uploads@;
            let pre = old(self).uploads@;
            assert forall|m: int|
                0 <= m < post.len() implies post[m].file_path@ != path@ by {
                if m < j as int {
                    assert(post[m] == pre[m]);
                } else {
                    assert(post[m] == pre[m + 1]);
                }
            }
            assert forall|m: int, n: int|
                0 <= m < n < post.len() implies post[m].file_path@ != post[n].file_path@ by {
                let m0 = if m < j as int {
                    m
                } else {
                    m + 1
                };
                let n0 = if n < j as int {
                    n
                } else {
                    n + 1
                };
                assert(post[m] == pre[m0] && post[n] == pre[n0]);
            }
        }
        Ok(())
    }
}

} // verus!
