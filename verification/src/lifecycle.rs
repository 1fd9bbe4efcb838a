//! The file-lifecycle manager: the four mutating operations (upload,
//! overwrite, delete, move) coordinated across the metadata store and the
//! object store, so that a path either fully exists in both or fully does
//! not. Metadata is written first on upload and deleted first on delete, and
//! a failed object-store step after a metadata insert is compensated by
//! rolling the insert back. Every mutating operation is gated before it
//! performs any store mutation, and each one records a best-effort cache
//! purge for the public URL it made stale.

use vstd::prelude::*;

use crate::FileError;
use crate::auth::RequiresOwnership;
use crate::metadata::MetadataStore;
use crate::metadata::UploadRecord;
use crate::objects::ObjectRecord;
use crate::objects::ObjectStore;
use crate::paths::check_component;
use crate::paths::is_valid_component;
use crate::paths::join_path;
use crate::paths::lemma_join_injective;
use crate::paths::parse_filename_from_uri;
use crate::paths::spec_filename_of;
use crate::paths::spec_join;
use crate::paths::split_path;

verus! {

/// Process-wide configuration, constructed once at startup and passed into
/// the manager: the public base URL, the upload root on disk, and the
/// optional CDN credentials that switch the cache purger on.
#[derive(Clone)]
pub struct Config {
    pub base_url: String,
    pub upload_directory: String,
    pub cdn_enabled: bool,
    pub cdn_zone_id: String,
    pub cdn_email: String,
    pub cdn_api_key: String,
}

/// The object path of a stored object: `<namespace>/<filename>`.
pub open spec fn obj_path(o: ObjectRecord) -> Seq<char> {
    spec_join(o.namespace@, o.filename@)
}

/// The views of a sequence of owned URLs.
pub open spec fn urls_of(purged: Seq<String>) -> Seq<Seq<char>> {
    Seq::new(purged.len(), |i: int| purged[i]@)
}

/// The manager that owns both stores, the configuration, and the log of
/// cache purge requests issued so far.
pub struct FileLifecycleManager {
    pub config: Config,
    pub metadata: MetadataStore,
    pub objects: ObjectStore,
    pub purged: Vec<String>,
}

impl FileLifecycleManager {
    /// Both stores are well formed and never diverge: every metadata row
    /// has its object, and every object has its metadata row.
    pub open spec fn wf(self) -> bool {
        &&& self.metadata.wf()
        &&& self.objects.wf()
        &&& forall|j: int|
            0 <= j < self.metadata.uploads@.len() ==> self.spec_resolvable(
                (#[trigger] self.metadata.uploads@[j]).file_path@,
            )
        &&& forall|i: int|
            0 <= i < self.objects.objects@.len() ==> self.metadata.spec_path_exists(
                obj_path(#[trigger] self.objects.objects@[i]),
            )
    }

    /// The URLs whose cache purge has been requested, oldest first.
    pub open spec fn purged_urls(self) -> Seq<Seq<char>> {
        urls_of(self.purged@)
    }

    /// A stored object is reachable under this public path.
    pub open spec fn spec_resolvable(self, path: Seq<char>) -> bool {
        exists|i: int|
            0 <= i < self.objects.objects@.len() && obj_path(#[trigger] self.objects.objects@[i])
                == path
    }

    /// The object reachable under this public path holds exactly these bytes.
    pub open spec fn spec_resolves_to(self, path: Seq<char>, data: Seq<u8>) -> bool {
        exists|i: int|
            0 <= i < self.objects.objects@.len() && obj_path(#[trigger] self.objects.objects@[i])
                == path && self.objects.objects@[i].content@ == data
    }

    /// Neither store, nor the configuration, nor the purge log changed.
    pub open spec fn spec_state_eq(pre: Self, post: Self) -> bool {
        &&& post.config == pre.config
        &&& post.metadata.users@ == pre.metadata.users@
        &&& post.metadata.uploads@ == pre.metadata.uploads@
        &&& post.objects.objects@ == pre.objects.objects@
        &&& post.purged@ == pre.purged@
    }

    /// A fresh manager over empty stores.
    pub fn new(config: Config) -> (m: Self)
        ensures
            m.wf(),
            m.config == config,
            m.metadata.users@.len() == 0,
            m.metadata.uploads@.len() == 0,
            m.objects.objects@.len() == 0,
            m.purged@.len() == 0,
    {
        FileLifecycleManager {
            config,
            metadata: MetadataStore::new(),
            objects: ObjectStore::new(),
            purged: Vec::new(),
        }
    }

    /// Registers a user out of band; users are never created by a request.
    pub fn register_user(&mut self, id: u64, key: String) -> (r: Result<(), FileError>)
        requires
            old(self).wf(),
        ensures
            final(self).wf(),
            final(self).config == old(self).config,
            final(self).metadata.uploads@ == old(self).metadata.uploads@,
            final(self).objects.objects@ == old(self).objects.objects@,
            final(self).purged@ == old(self).purged@,
            match r {
                Ok(()) => {
                    &&& !old(self).metadata.spec_key_exists(key@)
                    &&& !old(self).metadata.spec_id_exists(id)
                    &&& final(self).metadata.users@ == old(self).metadata.users@.push(
                        (crate::metadata::UserRecord { id, key }),
                    )
                },
                Err(e) => {
                    &&& e == FileError::MetadataFault
                    &&& old(self).metadata.spec_key_exists(key@) || old(
                        self,
                    ).metadata.spec_id_exists(id)
                    &&& final(self).metadata.users@ == old(self).metadata.users@
                },
            },
    {
        let r = self.metadata.register_user(id, key);
        proof {
            lemma_same_rows_same_wf(*old(self), *self);
        }
        r
    }

    /// Reads the bytes reachable under a public path, as the static file
    /// server behind the public URL would.
    pub fn resolve(&self, path: &str) -> (r: Option<&Vec<u8>>)
        requires
            self.wf(),
        ensures
            match r {
                Some(c) => self.spec_resolves_to(path@, c@),
                None => !self.spec_resolvable(path@),
            },
    {
        let parts = match split_path(path) {
            Some(parts) => parts,
            None => {
                proof {
                    if self.spec_resolvable(path@) {
                        let i = choose|i: int|
                            0 <= i < self.objects.objects@.len() && obj_path(
                                self.objects.objects@[i],
                            ) == path@;
                        assert(path@[self.objects.objects@[i].namespace@.len() as int] == '/');
                    }
                }
                return None;
            },
        };
        let r = self.objects.read(parts.0.as_str(), parts.1.as_str());
        proof {
            match r {
                Some(c) => {},
                None => {
                    if self.spec_resolvable(path@) {
                        let i = choose|i: int|
                            0 <= i < self.objects.objects@.len() && obj_path(
                                self.objects.objects@[i],
                            ) == path@;
                        lemma_join_injective(
                            self.objects.objects@[i].namespace@,
                            self.objects.objects@[i].filename@,
                            parts.0@,
                            parts.1@,
                        );
                    }
                },
            }
        }
        r
    }

    /// Everything a successful upload needs from the state: the key is
    /// registered, the requested path yields a usable filename, the fresh
    /// namespace token is usable, and the token is genuinely fresh in both
    /// stores.
    pub open spec fn spec_upload_enabled(
        pre: Self,
        key: Seq<char>,
        uri: Seq<char>,
        token: Seq<char>,
    ) -> bool {
        let name = spec_filename_of(uri);
        let path = spec_join(token, name);
        &&& pre.metadata.spec_key_exists(key)
        &&& is_valid_component(name)
        &&& is_valid_component(token)
        &&& !pre.metadata.spec_path_exists(path)
        &&& !pre.objects.spec_ns_exists(token)
    }

    /// A successful upload: one new metadata row owned by the key's user
    /// and one new object holding exactly the request body, both under the
    /// path `<token>/<filename>`; nothing else changes, nothing is purged,
    /// and the returned URL is the path under the configured base URL.
    pub open spec fn spec_upload_ok(
        pre: Self,
        post: Self,
        key: Seq<char>,
        uri: Seq<char>,
        token: Seq<char>,
        body: Seq<u8>,
        url: Seq<char>,
    ) -> bool {
        let name = spec_filename_of(uri);
        let path = spec_join(token, name);
        &&& Self::spec_upload_enabled(pre, key, uri, token)
        &&& post.config == pre.config
        &&& post.metadata.users@ == pre.metadata.users@
        &&& post.metadata.uploads@.len() == pre.metadata.uploads@.len() + 1
        &&& post.metadata.uploads@.drop_last() == pre.metadata.uploads@
        &&& post.metadata.uploads@.last().file_path@ == path
        &&& exists|i: int|
            0 <= i < pre.metadata.users@.len() && (#[trigger] pre.metadata.users@[i]).key@ == key
                && post.metadata.uploads@.last().uploader == pre.metadata.users@[i].id
        &&& post.objects.objects@.len() == pre.objects.objects@.len() + 1
        &&& post.objects.objects@.drop_last() == pre.objects.objects@
        &&& post.objects.objects@.last().namespace@ == token
        &&& post.objects.objects@.last().filename@ == name
        &&& post.objects.objects@.last().content@ == body
        &&& post.purged@ == pre.purged@
        &&& url == spec_join(pre.config.base_url@, path)
    }

    /// The faults an upload reports, each exactly on its inputs: a missing
    /// or unknown key is rejected first, then an unusable filename or
    /// token, then a metadata row already under the path, and last a
    /// namespace already taken in the object store (found only after the
    /// metadata insert, which is then rolled back).
    pub open spec fn spec_upload_err(
        pre: Self,
        key: Seq<char>,
        uri: Seq<char>,
        token: Seq<char>,
        e: FileError,
    ) -> bool {
        let name = spec_filename_of(uri);
        let path = spec_join(token, name);
        let known = pre.metadata.spec_key_exists(key);
        let usable = is_valid_component(name) && is_valid_component(token);
        &&& (e == FileError::Unauthorized <==> !known)
        &&& (e == FileError::InvalidPath <==> known && !usable)
        &&& (e == FileError::MetadataFault <==> known && usable && pre.metadata.spec_path_exists(
            path,
        ))
        &&& (e == FileError::StorageFault <==> known && usable && !pre.metadata.spec_path_exists(
            path,
        ) && pre.objects.spec_ns_exists(token))
        &&& e != FileError::NotFound
    }

    /// Upload: gate on the key, derive the filename from the requested
    /// path, insert the metadata row first, then create the object and
    /// stream the body into it. When object creation fails after the row
    /// was inserted, the row is rolled back, so the stores never diverge.
    pub fn upload_file(&mut self, key: &str, uri: &str, token: String, body: &[u8]) -> (r: Result<
        String,
        FileError,
    >)
        requires
            old(self).wf(),
        ensures
            final(self).wf(),
            match r {
                Ok(url) => Self::spec_upload_ok(
                    *old(self),
                    *final(self),
                    key@,
                    uri@,
                    token@,
                    body@,
                    url@,
                ),
                Err(e) => Self::spec_state_eq(*old(self), *final(self))
                    && Self::spec_upload_err(*old(self), key@, uri@, token@, e),
            },
    {
        let uid = match self.metadata.user_id_for_key(key) {
            Some(uid) => uid,
            None => {
                return Err(FileError::Unauthorized);
            },
        };
        let name = match parse_filename_from_uri(uri) {
            Some(name) => name,
            None => {
                return Err(FileError::InvalidPath);
            },
        };
        if !check_component(token.as_str()) {
            return Err(FileError::InvalidPath);
        }
        let path = join_path(token.as_str(), name.as_str());
        match self.metadata.insert_upload(path.clone(), uid) {
            Ok(()) => {},
            Err(_) => {
                return Err(FileError::MetadataFault);
            },
        }
        let ghost m1 = *self;
        match self.objects.create(token.clone(), name.clone()) {
            Ok(()) => {},
            Err(_) => {
                // Compensate: the object store refused the namespace, so the
                // just-inserted row must go, or the stores would diverge.
                let rollback = self.metadata.delete_path(path.as_str());
                proof {
                    assert(m1.metadata.uploads@[m1.metadata.uploads@.len() - 1].file_path@
                        == path@);
                    if rollback is Err {
                        assert(false);
                    }
                    let j = choose|j: int|
                        {
                            &&& 0 <= j < m1.metadata.uploads@.len()
                            &&& m1.metadata.uploads@[j].file_path@ == path@
                            &&& self.metadata.uploads@ == m1.metadata.uploads@.remove(j)
                        };
                    assert(j == old(self).metadata.uploads@.len());
                    assert(self.metadata.uploads@ =~= old(self).metadata.uploads@);
                }
                return Err(FileError::StorageFault);
            },
        }
        let ghost m2 = *self;
        match self.objects.append(token.as_str(), name.as_str(), body) {
            Ok(()) => {},
            Err(_) => {
                proof {
                    assert(false);
                }
                return Err(FileError::StorageFault);
            },
        }
        let url = join_path(self.config.base_url.as_str(), path.as_str());
        proof {
            let pre = *old(self);
            let post = *self;
            let nlen = pre.objects.objects@.len() as int;
            let mlen = pre.metadata.uploads@.len() as int;
            let i = choose|i: int|
                {
                    &&& 0 <= i < m2.objects.objects@.len()
                    &&& m2.objects.objects@[i].namespace@ == token@
                    &&& m2.objects.objects@[i].filename@ == name@
                    &&& post.objects.objects@.len() == m2.objects.objects@.len()
                    &&& post.objects.objects@[i].namespace == m2.objects.objects@[i].namespace
                    &&& post.objects.objects@[i].filename == m2.objects.objects@[i].filename
                    &&& post.objects.objects@[i].content@ == m2.objects.objects@[i].content@
                        + body@
                    &&& forall|k: int|
                        0 <= k < m2.objects.objects@.len() && k != i ==> post.objects.objects@[k]
                            == m2.objects.objects@[k]
                };
            assert(m2.objects.objects@.drop_last() == pre.objects.objects@);
            if i < nlen {
                assert(m2.objects.objects@[i] == pre.objects.objects@[i]);
                assert(pre.objects.spec_ns_exists(token@));
                assert(false);
            }
            assert(i == nlen);
            assert(post.objects.objects@[nlen].content@ =~= body@);
            assert forall|k: int| 0 <= k < nlen implies post.objects.objects@[k]
                == pre.objects.objects@[k] by {
                assert(post.objects.objects@[k] == m2.objects.objects@[k]);
            }
            assert(post.objects.objects@.drop_last() =~= pre.objects.objects@);
            assert(post.metadata.uploads@.drop_last() =~= pre.metadata.uploads@);
            // the stores still correspond row for row
            assert forall|j: int| 0 <= j < post.metadata.uploads@.len() implies post.spec_resolvable(
                (#[trigger] post.metadata.uploads@[j]).file_path@,
            ) by {
                if j < mlen {
                    assert(pre.spec_resolvable(pre.metadata.uploads@[j].file_path@));
                    let w = choose|w: int|
                        0 <= w < pre.objects.objects@.len() && obj_path(
                            #[trigger] pre.objects.objects@[w],
                        ) == pre.metadata.uploads@[j].file_path@;
                    assert(obj_path(post.objects.objects@[w]) == post.metadata.uploads@[j].file_path@);
                } else {
                    assert(obj_path(post.objects.objects@[nlen])
                        == post.metadata.uploads@[j].file_path@);
                }
            }
            assert forall|i2: int|
                0 <= i2 < post.objects.objects@.len() implies post.metadata.spec_path_exists(
                obj_path(#[trigger] post.objects.objects@[i2]),
            ) by {
                if i2 < nlen {
                    assert(pre.metadata.spec_path_exists(obj_path(pre.objects.objects@[i2])));
                    let w = choose|w: int|
                        0 <= w < pre.metadata.uploads@.len() && (
                        #[trigger] pre.metadata.uploads@[w]).file_path@ == obj_path(
                            pre.objects.objects@[i2],
                        );
                    assert(post.metadata.uploads@[w].file_path@ == obj_path(
                        post.objects.objects@[i2],
                    ));
                } else {
                    assert(post.metadata.uploads@.last().file_path@ == obj_path(
                        post.objects.objects@[i2],
                    ));
                }
            }
        }
        Ok(url)
    }

    /// A successful overwrite: the owned object's bytes are replaced by the
    /// request body, the metadata does not change, and the object's public
    /// URL is recorded for purging when a CDN is configured.
    pub open spec fn spec_overwrite_ok(
        pre: Self,
        post: Self,
        key: Seq<char>,
        path: Seq<char>,
        body: Seq<u8>,
        url: Seq<char>,
    ) -> bool {
        &&& pre.metadata.spec_owns(key, path)
        &&& post.config == pre.config
        &&& post.metadata.users@ == pre.metadata.users@
        &&& post.metadata.uploads@ == pre.metadata.uploads@
        &&& exists|i: int|
            {
                &&& 0 <= i < pre.objects.objects@.len()
                &&& obj_path(#[trigger] pre.objects.objects@[i]) == path
                &&& post.objects.objects@.len() == pre.objects.objects@.len()
                &&& post.objects.objects@[i].namespace == pre.objects.objects@[i].namespace
                &&& post.objects.objects@[i].filename == pre.objects.objects@[i].filename
                &&& post.objects.objects@[i].content@ == body
                &&& forall|k: int|
                    0 <= k < pre.objects.objects@.len() && k != i ==> post.objects.objects@[k]
                        == pre.objects.objects@[k]
            }
        &&& post.spec_resolves_to(path, body)
        &&& url == spec_join(pre.config.base_url@, path)
        &&& post.purged_urls() == if pre.config.cdn_enabled {
            pre.purged_urls().push(url)
        } else {
            pre.purged_urls()
        }
    }

    /// Overwrite: gate on ownership of the path, then truncate and rewrite
    /// the existing object; no metadata changes, and the stale cached copy
    /// of the path's URL is purged.
    pub fn overwrite_file(&mut self, key: &str, path: &str, body: &[u8]) -> (r: Result<
        String,
        FileError,
    >)
        requires
            old(self).wf(),
        ensures
            final(self).wf(),
            match r {
                Ok(url) => Self::spec_overwrite_ok(
                    *old(self),
                    *final(self),
                    key@,
                    path@,
                    body@,
                    url@,
                ),
                Err(e) => {
                    &&& Self::spec_state_eq(*old(self), *final(self))
                    &&& e == FileError::Unauthorized
                    &&& !old(self).metadata.spec_owns(key@, path@)
                },
            },
    {
        let gate = RequiresOwnership;
        let mw = gate.new_transform();
        if !mw.call(&self.metadata, Some(key), path) {
            return Err(FileError::Unauthorized);
        }
        proof {
            lemma_owned_path_exists(*self, key@, path@);
        }
        let parts = match split_path(path) {
            Some(parts) => parts,
            None => {
                proof {
                    lemma_stored_path_has_separator(*self, path@);
                    assert(false);
                }
                return Err(FileError::InvalidPath);
            },
        };
        proof {
            lemma_object_of_path(*self, path@, parts.0@, parts.1@);
        }
        let ghost m0 = *self;
        match self.objects.overwrite(parts.0.as_str(), parts.1.as_str(), body) {
            Ok(()) => {},
            Err(_) => {
                proof {
                    assert(false);
                }
                return Err(FileError::StorageFault);
            },
        }
        let url = join_path(self.config.base_url.as_str(), path);
        let ghost m1 = *self;
        self.record_purge(&url);
        proof {
            lemma_urls_push(m1.purged@, url);
            let i = choose|i: int|
                {
                    &&& 0 <= i < m0.objects.objects@.len()
                    &&& m0.objects.objects@[i].namespace@ == parts.0@
                    &&& m0.objects.objects@[i].filename@ == parts.1@
                    &&& self.objects.objects@.len() == m0.objects.objects@.len()
                    &&& self.objects.objects@[i].namespace == m0.objects.objects@[i].namespace
                    &&& self.objects.objects@[i].filename == m0.objects.objects@[i].filename
                    &&& self.objects.objects@[i].content@ == body@
                    &&& forall|k: int|
                        0 <= k < m0.objects.objects@.len() && k != i ==> self.objects.objects@[k]
                            == m0.objects.objects@[k]
                };
            assert(obj_path(self.objects.objects@[i]) == path@);
            assert forall|k: int| 0 <= k < m0.objects.objects@.len() implies obj_path(
                #[trigger] self.objects.objects@[k],
            ) == obj_path(m0.objects.objects@[k]) by {
                if k != i {
                    assert(self.objects.objects@[k] == m0.objects.objects@[k]);
                }
            }
            lemma_same_paths_same_wf(*old(self), *self);
        }
        Ok(url)
    }

    /// A successful delete: the path's metadata row is gone, the whole
    /// namespace of the path is gone from the object store, and the path's
    /// public URL is recorded for purging when a CDN is configured.
    pub open spec fn spec_delete_ok(pre: Self, post: Self, key: Seq<char>, path: Seq<char>) -> bool {
        &&& pre.metadata.spec_owns(key, path)
        &&& post.config == pre.config
        &&& post.metadata.users@ == pre.metadata.users@
        &&& !post.metadata.spec_path_exists(path)
        &&& !post.spec_resolvable(path)
        &&& exists|j: int|
            {
                &&& 0 <= j < pre.metadata.uploads@.len()
                &&& (#[trigger] pre.metadata.uploads@[j]).file_path@ == path
                &&& post.metadata.uploads@ == pre.metadata.uploads@.remove(j)
            }
        &&& exists|i: int|
            {
                &&& 0 <= i < pre.objects.objects@.len()
                &&& obj_path(#[trigger] pre.objects.objects@[i]) == path
                &&& post.objects.objects@ == pre.objects.objects@.remove(i)
                &&& !post.objects.spec_ns_exists(pre.objects.objects@[i].namespace@)
            }
        &&& post.purged_urls() == if pre.config.cdn_enabled {
            pre.purged_urls().push(spec_join(pre.config.base_url@, path))
        } else {
            pre.purged_urls()
        }
    }

    /// Delete: gate on ownership, delete the metadata row first (so that
    /// authorization can never again succeed for a half-deleted object),
    /// then recursively remove the owning namespace, then purge the URL.
    pub fn delete_file(&mut self, key: &str, path: &str) -> (r: Result<(), FileError>)
        requires
            old(self).wf(),
        ensures
            final(self).wf(),
            match r {
                Ok(()) => Self::spec_delete_ok(*old(self), *final(self), key@, path@),
                Err(e) => {
                    &&& Self::spec_state_eq(*old(self), *final(self))
                    &&& e == FileError::Unauthorized
                    &&& !old(self).metadata.spec_owns(key@, path@)
                },
            },
    {
        let gate = RequiresOwnership;
        let mw = gate.new_transform();
        if !mw.call(&self.metadata, Some(key), path) {
            return Err(FileError::Unauthorized);
        }
        proof {
            lemma_owned_path_exists(*self, key@, path@);
        }
        let parts = match split_path(path) {
            Some(parts) => parts,
            None => {
                proof {
                    lemma_stored_path_has_separator(*self, path@);
                    assert(false);
                }
                return Err(FileError::InvalidPath);
            },
        };
        proof {
            lemma_object_of_path(*self, path@, parts.0@, parts.1@);
        }
        let ghost pre = *self;
        match self.metadata.delete_path(path) {
            Ok(()) => {},
            Err(_) => {
                proof {
                    assert(false);
                }
                return Err(FileError::NotFound);
            },
        }
        match self.objects.delete_namespace(parts.0.as_str()) {
            Ok(()) => {},
            Err(_) => {
                // A failed filesystem delete after the row is gone leaves an
                // orphan on disk; the row is intentionally not resurrected.
                // Here the object is known present, so this cannot happen.
                proof {
                    assert(false);
                }
                return Err(FileError::StorageFault);
            },
        }
        let url = join_path(self.config.base_url.as_str(), path);
        let ghost m1 = *self;
        self.record_purge(&url);
        proof {
            lemma_urls_push(m1.purged@, url);
            let j = choose|j: int|
                {
                    &&& 0 <= j < pre.metadata.uploads@.len()
                    &&& pre.metadata.uploads@[j].file_path@ == path@
                    &&& self.metadata.uploads@ == pre.metadata.uploads@.remove(j)
                };
            let i = choose|i: int|
                {
                    &&& 0 <= i < pre.objects.objects@.len()
                    &&& pre.objects.objects@[i].namespace@ == parts.0@
                    &&& self.objects.objects@ == pre.objects.objects@.remove(i)
                };
            assert(obj_path(pre.objects.objects@[i]) == path@);
            lemma_delete_restores_wf(pre, *self, path@, parts.0@, parts.1@, j, i);
        }
        Ok(())
    }

    /// The row-for-row effect of a successful move: the row at `j` and the
    /// object at `i` both carried `path` and now carry the path of the new
    /// name inside the same namespace; everything else is untouched; the
    /// old path no longer resolves (unless the name did not change) and the
    /// new path resolves to the original bytes.
    pub open spec fn spec_move_shift(
        pre: Self,
        post: Self,
        path: Seq<char>,
        new_name: Seq<char>,
        url: Seq<char>,
        j: int,
        i: int,
    ) -> bool {
        let ns = pre.objects.objects@[i].namespace@;
        let new_path = spec_join(ns, new_name);
        &&& 0 <= j < pre.metadata.uploads@.len()
        &&& 0 <= i < pre.objects.objects@.len()
        &&& pre.metadata.uploads@[j].file_path@ == path
        &&& obj_path(pre.objects.objects@[i]) == path
        &&& post.metadata.uploads@.len() == pre.metadata.uploads@.len()
        &&& post.metadata.uploads@[j].file_path@ == new_path
        &&& post.metadata.uploads@[j].uploader == pre.metadata.uploads@[j].uploader
        &&& forall|k: int|
            0 <= k < pre.metadata.uploads@.len() && k != j ==> post.metadata.uploads@[k]
                == pre.metadata.uploads@[k]
        &&& post.objects.objects@.len() == pre.objects.objects@.len()
        &&& post.objects.objects@[i].namespace == pre.objects.objects@[i].namespace
        &&& post.objects.objects@[i].filename@ == new_name
        &&& post.objects.objects@[i].content == pre.objects.objects@[i].content
        &&& forall|k: int|
            0 <= k < pre.objects.objects@.len() && k != i ==> post.objects.objects@[k]
                == pre.objects.objects@[k]
        &&& (new_path != path ==> !post.spec_resolvable(path))
        &&& post.spec_resolves_to(new_path, pre.objects.objects@[i].content@)
        &&& url == spec_join(pre.config.base_url@, new_path)
    }

    /// A successful move: the owned path's metadata row and object are
    /// renamed in step within their namespace, the old public URL (the only
    /// one that can be cached) is recorded for purging when a CDN is
    /// configured, and the new URL is returned.
    pub open spec fn spec_move_ok(
        pre: Self,
        post: Self,
        key: Seq<char>,
        path: Seq<char>,
        rename_to: Seq<char>,
        url: Seq<char>,
    ) -> bool {
        let new_name = spec_filename_of(rename_to);
        &&& pre.metadata.spec_owns(key, path)
        &&& is_valid_component(new_name)
        &&& post.config == pre.config
        &&& post.metadata.users@ == pre.metadata.users@
        &&& exists|j: int, i: int| #[trigger]
            Self::spec_move_shift(pre, post, path, new_name, url, j, i)
        &&& post.purged_urls() == if pre.config.cdn_enabled {
            pre.purged_urls().push(spec_join(pre.config.base_url@, path))
        } else {
            pre.purged_urls()
        }
    }

    /// Move: gate on ownership, derive the new file name from the caller's
    /// target, update the metadata row first, then rename the file within
    /// its namespace, then purge the old URL only (the new one has never
    /// been cached).
    pub fn move_file(&mut self, key: &str, path: &str, rename_to: &str) -> (r: Result<
        String,
        FileError,
    >)
        requires
            old(self).wf(),
        ensures
            final(self).wf(),
            match r {
                Ok(url) => Self::spec_move_ok(
                    *old(self),
                    *final(self),
                    key@,
                    path@,
                    rename_to@,
                    url@,
                ),
                Err(e) => {
                    &&& Self::spec_state_eq(*old(self), *final(self))
                    &&& (e == FileError::Unauthorized <==> !old(self).metadata.spec_owns(
                        key@,
                        path@,
                    ))
                    &&& (e == FileError::InvalidPath <==> old(self).metadata.spec_owns(key@, path@)
                        && !is_valid_component(spec_filename_of(rename_to@)))
                    &&& (e == FileError::Unauthorized || e == FileError::InvalidPath)
                },
            },
    {
        let gate = RequiresOwnership;
        let mw = gate.new_transform();
        if !mw.call(&self.metadata, Some(key), path) {
            return Err(FileError::Unauthorized);
        }
        proof {
            lemma_owned_path_exists(*self, key@, path@);
        }
        let new_name = match parse_filename_from_uri(rename_to) {
            Some(name) => name,
            None => {
                return Err(FileError::InvalidPath);
            },
        };
        let parts = match split_path(path) {
            Some(parts) => parts,
            None => {
                proof {
                    lemma_stored_path_has_separator(*self, path@);
                    assert(false);
                }
                return Err(FileError::InvalidPath);
            },
        };
        proof {
            lemma_object_of_path(*self, path@, parts.0@, parts.1@);
        }
        let new_short = join_path(parts.0.as_str(), new_name.as_str());
        let ghost pre = *self;
        match self.metadata.update_path(path, new_short.clone()) {
            Ok(()) => {},
            Err(_) => {
                // Ownership was already checked, so the row exists, and a
                // second row inside this namespace can only be this same path.
                proof {
                    if pre.metadata.spec_path_exists(new_short@) && new_short@ != path@ {
                        lemma_path_in_namespace_unique(pre, parts.0@, parts.1@, new_name@);
                    }
                    assert(false);
                }
                return Err(FileError::MetadataFault);
            },
        }
        match self.objects.rename(parts.0.as_str(), parts.1.as_str(), new_name) {
            Ok(()) => {},
            Err(_) => {
                // The source object is present (ownership was checked) and
                // the new name is usable, so the rename cannot be refused.
                proof {
                    assert(false);
                }
                return Err(FileError::StorageFault);
            },
        }
        let old_url = join_path(self.config.base_url.as_str(), path);
        let url = join_path(self.config.base_url.as_str(), new_short.as_str());
        let ghost m1 = *self;
        self.record_purge(&old_url);
        proof {
            lemma_urls_push(m1.purged@, old_url);
            let j = choose|j: int|
                {
                    &&& 0 <= j < pre.metadata.uploads@.len()
                    &&& pre.metadata.uploads@[j].file_path@ == path@
                    &&& self.metadata.uploads@ == pre.metadata.uploads@.update(
                        j,
                        (UploadRecord {
                            file_path: new_short,
                            uploader: pre.metadata.uploads@[j].uploader,
                        }),
                    )
                };
            let i = choose|i: int|
                {
                    &&& 0 <= i < pre.objects.objects@.len()
                    &&& pre.objects.objects@[i].namespace@ == parts.0@
                    &&& pre.objects.objects@[i].filename@ == parts.1@
                    &&& self.objects.objects@.len() == pre.objects.objects@.len()
                    &&& self.objects.objects@[i].namespace == pre.objects.objects@[i].namespace
                    &&& self.objects.objects@[i].filename@ == new_name@
                    &&& self.objects.objects@[i].content == pre.objects.objects@[i].content
                    &&& forall|k: int|
                        0 <= k < pre.objects.objects@.len() && k != i ==> self.objects.objects@[k]
                            == pre.objects.objects@[k]
                };
            lemma_move_restores_wf(pre, *self, path@, parts.0@, parts.1@, new_name@, j, i);
            assert(Self::spec_move_shift(pre, *self, path@, new_name@, url@, j, i));
        }
        Ok(url)
    }

    /// Upload under a server-generated namespace token, as the upload
    /// endpoint runs it. The token is random, so every outcome is covered:
    /// were a drawn token ever in use already, the operation would report
    /// the fault of the colliding store and leave the state unchanged.
    pub fn upload_file_with_fresh_namespace(&mut self, key: &str, uri: &str, body: &[u8]) -> (r:
        Result<String, FileError>)
        requires
            old(self).wf(),
        ensures
            final(self).wf(),
            match r {
                Ok(url) => exists|token: Seq<char>| #[trigger] Self::spec_upload_ok(
                    *old(self),
                    *final(self),
                    key@,
                    uri@,
                    token,
                    body@,
                    url@,
                ),
                Err(e) => {
                    &&& Self::spec_state_eq(*old(self), *final(self))
                    &&& (e == FileError::Unauthorized <==> !old(self).metadata.spec_key_exists(
                        key@,
                    ))
                    &&& (e == FileError::InvalidPath <==> old(self).metadata.spec_key_exists(key@)
                        && !is_valid_component(spec_filename_of(uri@)))
                    &&& (e == FileError::MetadataFault || e == FileError::StorageFault
                        ==> old(self).metadata.spec_key_exists(key@) && is_valid_component(
                        spec_filename_of(uri@),
                    ))
                    &&& (e == FileError::MetadataFault || e == FileError::StorageFault
                        ==> exists|i: int|
                        0 <= i < old(self).objects.objects@.len() && (
                        #[trigger] old(self).objects.objects@[i]).namespace@.len() == 36)
                    &&& e != FileError::NotFound
                },
            },
    {
        let token = fresh_namespace_token();
        proof {
            assert forall|t: int| 0 <= t < token@.len() implies token@[t] != '/' by {}
            assert(is_valid_component(token@));
        }
        let r = self.upload_file(key, uri, token, body);
        proof {
            // A colliding draw is possible only against a namespace of the
            // token's own length: a store free of 36-character namespaces
            // is owed success.
            match r {
                Ok(_) => {},
                Err(e) => {
                    let name = spec_filename_of(uri@);
                    if e == FileError::MetadataFault {
                        lemma_object_of_path(
                            *old(self),
                            spec_join(token@, name),
                            token@,
                            name,
                        );
                        let i = choose|i: int|
                            0 <= i < old(self).objects.objects@.len() && (
                            #[trigger] old(self).objects.objects@[i]).namespace@ == token@
                                && old(self).objects.objects@[i].filename@ == name;
                        assert(old(self).objects.objects@[i].namespace@.len() == 36);
                    }
                    if e == FileError::StorageFault {
                        let i = choose|i: int|
                            0 <= i < old(self).objects.objects@.len() && old(
                                self,
                            ).objects.objects@[i].namespace@ == token@;
                        assert(old(self).objects.objects@[i].namespace@.len() == 36);
                    }
                },
            }
        }
        r
    }

    /// Records the purge request for a now-stale public URL when a CDN is
    /// configured; with none, purging is a no-op.
    fn record_purge(&mut self, url: &String)
        ensures
            final(self).config == old(self).config,
            final(self).metadata == old(self).metadata,
            final(self).objects == old(self).objects,
            final(self).purged@ == if old(self).config.cdn_enabled {
                old(self).purged@.push(*url)
            } else {
                old(self).purged@
            },
    {
        if self.config.cdn_enabled {
            let copy = url.clone();
            self.purged.push(copy);
        }
    }
}

/// Relies on uuid::Uuid::new_v4 and its hyphenated `Display` form: a fresh
/// random version-4 token rendered as 36 lowercase hexadecimal digits and
/// hyphens. Nothing is assumed about which token comes back.
#[verifier::external_body]
fn fresh_namespace_token() -> (r: String)
    ensures
        r@.len() == 36,
        forall|t: int|
            0 <= t < r@.len() ==> r@[t] == '-' || ('0' <= r@[t] && r@[t] <= '9') || ('a' <= r@[t]
                && r@[t] <= 'f'),
{
    uuid::Uuid::new_v4().to_string()
}

/// The CDN invalidation endpoint for a zone.
pub fn purge_endpoint(zone_id: &str) -> (r: String)
    ensures
        r@ == "https://api.cloudflare.com/client/v4/zones/"@ + zone_id@ + "/purge_cache"@,
{
    let mut s = "https://api.cloudflare.com/client/v4/zones/".to_owned();
    s.append(zone_id);
    s.append("/purge_cache");
    s
}

/// The CDN invalidation request body naming one stale URL, enclosed
/// verbatim in a JSON string literal.
pub fn purge_request_body(url: &str) -> (r: String)
    ensures
        r@ == "{\"files\": [\""@ + url@ + "\"]}"@,
{
    let mut s = "{\"files\": [\"".to_owned();
    s.append(url);
    s.append("\"]}");
    s
}

/// The views of a pushed sequence of URLs are the pushed views.
proof fn lemma_urls_push(s: Seq<String>, x: String)
    ensures
        urls_of(s.push(x)) == urls_of(s).push(x@),
{
    assert(urls_of(s.push(x)) =~= urls_of(s).push(x@));
}

/// An owned path has a metadata row.
proof fn lemma_owned_path_exists(m: FileLifecycleManager, key: Seq<char>, path: Seq<char>)
    requires
        m.metadata.spec_owns(key, path),
    ensures
        m.metadata.spec_path_exists(path),
{
    let (i, j) = choose|i: int, j: int|
        0 <= i < m.metadata.users@.len() && 0 <= j < m.metadata.uploads@.len()
            && m.metadata.users@[i].key@ == key && m.metadata.uploads@[j].file_path@ == path
            && m.metadata.uploads@[j].uploader == m.metadata.users@[i].id;
    assert(0 <= j < m.metadata.uploads@.len() && m.metadata.uploads@[j].file_path@ == path);
}

/// A path with a metadata row carries a separator: it is the join of its
/// object's namespace and file name.
proof fn lemma_stored_path_has_separator(m: FileLifecycleManager, path: Seq<char>)
    requires
        m.wf(),
        m.metadata.spec_path_exists(path),
    ensures
        exists|t: int| 0 <= t < path.len() && path[t] == '/',
{
    let j = choose|j: int|
        0 <= j < m.metadata.uploads@.len() && m.metadata.uploads@[j].file_path@ == path;
    assert(m.spec_resolvable(m.metadata.uploads@[j].file_path@));
    let i = choose|i: int|
        0 <= i < m.objects.objects@.len() && obj_path(#[trigger] m.objects.objects@[i]) == path;
    let t = m.objects.objects@[i].namespace@.len() as int;
    assert(0 <= t < path.len() && path[t] == '/');
}

/// The object witnessing a stored path sits in the path's own namespace and
/// carries the path's file name, and it is the only object there.
proof fn lemma_object_of_path(
    m: FileLifecycleManager,
    path: Seq<char>,
    ns: Seq<char>,
    name: Seq<char>,
)
    requires
        m.wf(),
        m.metadata.spec_path_exists(path),
        path == spec_join(ns, name),
        forall|t: int| 0 <= t < ns.len() ==> ns[t] != '/',
    ensures
        exists|i: int|
            0 <= i < m.objects.objects@.len() && (#[trigger] m.objects.objects@[i]).namespace@
                == ns && m.objects.objects@[i].filename@ == name,
        forall|i: int|
            0 <= i < m.objects.objects@.len() && (#[trigger] m.objects.objects@[i]).namespace@
                == ns ==> m.objects.objects@[i].filename@ == name && obj_path(
                m.objects.objects@[i],
            ) == path,
{
    let j = choose|j: int|
        0 <= j < m.metadata.uploads@.len() && m.metadata.uploads@[j].file_path@ == path;
    assert(m.spec_resolvable(m.metadata.uploads@[j].file_path@));
    let i = choose|i: int|
        0 <= i < m.objects.objects@.len() && obj_path(#[trigger] m.objects.objects@[i]) == path;
    lemma_join_injective(m.objects.objects@[i].namespace@, m.objects.objects@[i].filename@, ns, name);
    assert(m.objects.objects@[i].namespace@ == ns && m.objects.objects@[i].filename@ == name);
    assert forall|i2: int|
        0 <= i2 < m.objects.objects@.len() && (#[trigger] m.objects.objects@[i2]).namespace@
            == ns implies m.objects.objects@[i2].filename@ == name && obj_path(
        m.objects.objects@[i2],
    ) == path by {
        if i2 != i {
            assert(m.objects.objects@[i2].namespace@ != m.objects.objects@[i].namespace@);
            assert(false);
        }
    }
}

/// Two stored paths in one namespace are the same path.
proof fn lemma_path_in_namespace_unique(
    m: FileLifecycleManager,
    ns: Seq<char>,
    name1: Seq<char>,
    name2: Seq<char>,
)
    requires
        m.wf(),
        m.metadata.spec_path_exists(spec_join(ns, name1)),
        m.metadata.spec_path_exists(spec_join(ns, name2)),
        forall|t: int| 0 <= t < ns.len() ==> ns[t] != '/',
    ensures
        name1 == name2,
{
    lemma_object_of_path(m, spec_join(ns, name1), ns, name1);
    lemma_object_of_path(m, spec_join(ns, name2), ns, name2);
    let i = choose|i: int|
        0 <= i < m.objects.objects@.len() && (#[trigger] m.objects.objects@[i]).namespace@ == ns
            && m.objects.objects@[i].filename@ == name1;
}

/// Rewriting object bytes in place cannot break the correspondence between
/// metadata rows and stored objects.
proof fn lemma_same_paths_same_wf(pre: FileLifecycleManager, post: FileLifecycleManager)
    requires
        pre.wf(),
        post.metadata.wf(),
        post.objects.wf(),
        post.metadata.uploads@ == pre.metadata.uploads@,
        post.objects.objects@.len() == pre.objects.objects@.len(),
        forall|i: int|
            0 <= i < pre.objects.objects@.len() ==> obj_path(#[trigger] post.objects.objects@[i])
                == obj_path(pre.objects.objects@[i]),
    ensures
        post.wf(),
{
    assert forall|j: int| 0 <= j < post.metadata.uploads@.len() implies post.spec_resolvable(
        (#[trigger] post.metadata.uploads@[j]).file_path@,
    ) by {
        assert(pre.metadata.uploads@[j] == post.metadata.uploads@[j]);
        assert(pre.spec_resolvable(pre.metadata.uploads@[j].file_path@));
        let i = choose|i: int|
            0 <= i < pre.objects.objects@.len() && obj_path(#[trigger] pre.objects.objects@[i])
                == pre.metadata.uploads@[j].file_path@;
        assert(obj_path(post.objects.objects@[i]) == post.metadata.uploads@[j].file_path@);
    }
    assert forall|i: int| 0 <= i < post.objects.objects@.len() implies post.metadata.spec_path_exists(
        obj_path(#[trigger] post.objects.objects@[i]),
    ) by {
        assert(pre.metadata.spec_path_exists(obj_path(pre.objects.objects@[i])));
        let j = choose|j: int|
            0 <= j < pre.metadata.uploads@.len() && pre.metadata.uploads@[j].file_path@ == obj_path(
                pre.objects.objects@[i],
            );
        assert(post.metadata.uploads@[j].file_path@ == obj_path(post.objects.objects@[i]));
    }
}

/// Removing a path's row and its namespace's object together keeps the
/// stores in correspondence, and the path is gone from both.
proof fn lemma_delete_restores_wf(
    pre: FileLifecycleManager,
    post: FileLifecycleManager,
    path: Seq<char>,
    ns: Seq<char>,
    name: Seq<char>,
    j: int,
    i: int,
)
    requires
        pre.wf(),
        post.metadata.wf(),
        post.objects.wf(),
        path == spec_join(ns, name),
        forall|t: int| 0 <= t < ns.len() ==> ns[t] != '/',
        0 <= j < pre.metadata.uploads@.len(),
        pre.metadata.uploads@[j].file_path@ == path,
        0 <= i < pre.objects.objects@.len(),
        pre.objects.objects@[i].namespace@ == ns,
        obj_path(pre.objects.objects@[i]) == path,
        post.metadata.uploads@ == pre.metadata.uploads@.remove(j),
        post.objects.objects@ == pre.objects.objects@.remove(i),
    ensures
        post.wf(),
        !post.spec_resolvable(path),
        !post.metadata.spec_path_exists(path),
{
    let pm = pre.metadata.uploads@;
    let po = pre.objects.objects@;
    let qm = post.metadata.uploads@;
    let qo = post.objects.objects@;
    assert forall|m: int| 0 <= m < qm.len() implies qm[m] == pm[if m < j {
        m
    } else {
        m + 1
    }] by {}
    assert forall|k: int| 0 <= k < qo.len() implies qo[k] == po[if k < i {
        k
    } else {
        k + 1
    }] by {}
    assert forall|m: int| 0 <= m < qm.len() implies post.spec_resolvable(
        (#[trigger] qm[m]).file_path@,
    ) by {
        let m0 = if m < j {
            m
        } else {
            m + 1
        };
        assert(pre.spec_resolvable((pm[m0]).file_path@));
        let w = choose|w: int|
            0 <= w < po.len() && obj_path(#[trigger] po[w]) == pm[m0].file_path@;
        if w == i {
            assert(pm[m0].file_path@ == path);
            assert(false);
        }
        let w1 = if w < i {
            w
        } else {
            w - 1
        };
        assert(obj_path(qo[w1]) == qm[m].file_path@);
    }
    assert forall|k: int| 0 <= k < qo.len() implies post.metadata.spec_path_exists(
        obj_path(#[trigger] qo[k]),
    ) by {
        let k0 = if k < i {
            k
        } else {
            k + 1
        };
        assert(pre.metadata.spec_path_exists(obj_path(po[k0])));
        let w = choose|w: int| 0 <= w < pm.len() && (#[trigger] pm[w]).file_path@ == obj_path(po[k0]);
        if w == j {
            assert(obj_path(po[k0]) == path);
            crate::paths::lemma_join_injective(po[k0].namespace@, po[k0].filename@, ns, name);
            assert(po[k0].namespace@ == ns);
            assert(false);
        }
        let w1 = if w < j {
            w
        } else {
            w - 1
        };
        assert(qm[w1].file_path@ == obj_path(qo[k]));
    }
    assert forall|k: int| 0 <= k < qo.len() implies obj_path(#[trigger] qo[k]) != path by {
        let k0 = if k < i {
            k
        } else {
            k + 1
        };
        if obj_path(po[k0]) == path {
            crate::paths::lemma_join_injective(po[k0].namespace@, po[k0].filename@, ns, name);
            assert(po[k0].namespace@ == ns);
            assert(false);
        }
    }
    assert forall|m: int| 0 <= m < qm.len() implies (#[trigger] qm[m]).file_path@ != path by {
        let m0 = if m < j {
            m
        } else {
            m + 1
        };
        assert(qm[m] == pm[m0]);
    }
}

/// Renaming a path's row and its object together, within one namespace,
/// keeps the stores in correspondence, and the old path is gone from the
/// object store unless the name did not change.
proof fn lemma_move_restores_wf(
    pre: FileLifecycleManager,
    post: FileLifecycleManager,
    path: Seq<char>,
    ns: Seq<char>,
    name: Seq<char>,
    new_name: Seq<char>,
    j: int,
    i: int,
)
    requires
        pre.wf(),
        post.metadata.wf(),
        post.objects.wf(),
        path == spec_join(ns, name),
        forall|t: int| 0 <= t < ns.len() ==> ns[t] != '/',
        0 <= j < pre.metadata.uploads@.len(),
        pre.metadata.uploads@[j].file_path@ == path,
        0 <= i < pre.objects.objects@.len(),
        pre.objects.objects@[i].namespace@ == ns,
        obj_path(pre.objects.objects@[i]) == path,
        post.metadata.uploads@.len() == pre.metadata.uploads@.len(),
        post.metadata.uploads@[j].file_path@ == spec_join(ns, new_name),
        forall|k: int|
            0 <= k < pre.metadata.uploads@.len() && k != j ==> post.metadata.uploads@[k]
                == pre.metadata.uploads@[k],
        post.objects.objects@.len() == pre.objects.objects@.len(),
        post.objects.objects@[i].namespace@ == ns,
        post.objects.objects@[i].filename@ == new_name,
        forall|k: int|
            0 <= k < pre.objects.objects@.len() && k != i ==> post.objects.objects@[k]
                == pre.objects.objects@[k],
    ensures
        post.wf(),
        spec_join(ns, new_name) != path ==> !post.spec_resolvable(path),
{
    let pm = pre.metadata.uploads@;
    let po = pre.objects.objects@;
    let qm = post.metadata.uploads@;
    let qo = post.objects.objects@;
    let new_path = spec_join(ns, new_name);
    assert(obj_path(qo[i]) == new_path);
    assert forall|m: int| 0 <= m < qm.len() implies post.spec_resolvable(
        (#[trigger] qm[m]).file_path@,
    ) by {
        if m == j {
            assert(obj_path(qo[i]) == qm[m].file_path@);
        } else {
            assert(qm[m] == pm[m]);
            assert(pre.spec_resolvable(pm[m].file_path@));
            let w = choose|w: int|
                0 <= w < po.len() && obj_path(#[trigger] po[w]) == pm[m].file_path@;
            if w == i {
                assert(pm[m].file_path@ == path);
                assert(false);
            }
            assert(obj_path(qo[w]) == qm[m].file_path@);
        }
    }
    assert forall|k: int| 0 <= k < qo.len() implies post.metadata.spec_path_exists(
        obj_path(#[trigger] qo[k]),
    ) by {
        if k == i {
            assert(qm[j].file_path@ == obj_path(qo[k]));
        } else {
            assert(qo[k] == po[k]);
            assert(pre.metadata.spec_path_exists(obj_path(po[k])));
            let w = choose|w: int|
                0 <= w < pm.len() && (#[trigger] pm[w]).file_path@ == obj_path(po[k]);
            if w == j {
                assert(obj_path(po[k]) == path);
                lemma_join_injective(po[k].namespace@, po[k].filename@, ns, name);
                assert(po[k].namespace@ == ns);
                assert(false);
            }
            assert(qm[w].file_path@ == obj_path(qo[k]));
        }
    }
    if new_path != path {
        assert forall|k: int| 0 <= k < qo.len() implies obj_path(#[trigger] qo[k]) != path by {
            if k != i {
                if obj_path(po[k]) == path {
                    lemma_join_injective(po[k].namespace@, po[k].filename@, ns, name);
                    assert(po[k].namespace@ == ns);
                    assert(false);
                }
            }
        }
    }
}

/// Changing users, the configuration, or the purge log alone cannot break
/// the correspondence between metadata rows and stored objects.
proof fn lemma_same_rows_same_wf(pre: FileLifecycleManager, post: FileLifecycleManager)
    requires
        pre.wf(),
        post.metadata.wf(),
        post.objects.wf(),
        post.metadata.uploads@ == pre.metadata.uploads@,
        post.objects.objects@ == pre.objects.objects@,
    ensures
        post.wf(),
{
    assert forall|j: int| 0 <= j < post.metadata.uploads@.len() implies post.spec_resolvable(
        (#[trigger] post.metadata.uploads@[j]).file_path@,
    ) by {
        assert(pre.metadata.uploads@[j] == post.metadata.uploads@[j]);
        assert(pre.spec_resolvable(pre.metadata.uploads@[j].file_path@));
        let i = choose|i: int|
            0 <= i < pre.objects.objects@.len() && obj_path(#[trigger] pre.objects.objects@[i])
                == pre.metadata.uploads@[j].file_path@;
        assert(0 <= i < post.objects.objects@.len() && obj_path(post.objects.objects@[i])
            == post.metadata.uploads@[j].file_path@);
    }
    assert forall|i: int| 0 <= i < post.objects.objects@.len() implies post.metadata.spec_path_exists(
        obj_path(#[trigger] post.objects.objects@[i]),
    ) by {
        assert(pre.objects.objects@[i] == post.objects.objects@[i]);
        assert(pre.metadata.spec_path_exists(obj_path(pre.objects.objects@[i])));
        let j = choose|j: int|
            0 <= j < pre.metadata.uploads@.len() && pre.metadata.uploads@[j].file_path@ == obj_path(
                pre.objects.objects@[i],
            );
        assert(0 <= j < post.metadata.uploads@.len() && post.metadata.uploads@[j].file_path@
            == obj_path(post.objects.objects@[i]));
    }
}

} // verus!
