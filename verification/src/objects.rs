//! The object store: filesystem-like storage keyed by an opaque namespace
//! and a human file name. Each namespace holds the lineage of exactly one
//! logical object, so deletion is namespace-grained.

use vstd::prelude::*;

use crate::FileError;
use crate::paths::is_valid_component;

verus! {

/// One stored object: its namespace directory, its file name, and its bytes.
pub struct ObjectRecord {
    pub namespace: String,
    pub filename: String,
    pub content: Vec<u8>,
}

/// Filesystem-like storage. Namespaces are never shared between objects.
pub struct ObjectStore {
    pub objects: Vec<ObjectRecord>,
}

impl ObjectStore {
    /// Namespaces are unique and every path component is usable.
    pub open spec fn wf(self) -> bool {
        &&& forall|i: int, j: int|
            0 <= i < j < self.objects@.len() ==> self.objects@[i].namespace@
                != self.objects@[j].namespace@
        &&& forall|i: int|
            0 <= i < self.objects@.len() ==> is_valid_component(self.objects@[i].namespace@)
                && is_valid_component(self.objects@[i].filename@)
    }

    /// Some object lives in this namespace.
    pub open spec fn spec_ns_exists(self, ns: Seq<char>) -> bool {
        exists|i: int| 0 <= i < self.objects@.len() && self.objects@[i].namespace@ == ns
    }

    /// An object with this namespace and file name exists.
    pub open spec fn spec_object_exists(self, ns: Seq<char>, name: Seq<char>) -> bool {
        exists|i: int|
            0 <= i < self.objects@.len() && self.objects@[i].namespace@ == ns
                && self.objects@[i].filename@ == name
    }

    /// An object with this namespace and file name holds exactly these bytes.
    pub open spec fn spec_object_at(self, ns: Seq<char>, name: Seq<char>, data: Seq<u8>) -> bool {
        exists|i: int|
            0 <= i < self.objects@.len() && self.objects@[i].namespace@ == ns
                && self.objects@[i].filename@ == name && self.objects@[i].content@ == data
    }

    /// An empty store.
    pub fn new() -> (s: Self)
        ensures
            s.wf(),
            s.objects@.len() == 0,
    {
        ObjectStore { objects: Vec::new() }
    }

    /// The index of the object in this namespace, if the namespace is in use.
    fn index_of_ns(&self, ns: &str) -> (r: Option<usize>)
        ensures
            match r {
                Some(i) => 0 <= i < self.objects@.len() && self.objects@[i as int].namespace@
                    == ns@,
                None => !self.spec_ns_exists(ns@),
            },
    {
        let wanted = ns.to_owned();
        let mut i: usize = 0;
        while i < self.objects.len()
            invariant
                0 <= i <= self.objects@.len(),
                wanted@ == ns@,
                forall|k: int| 0 <= k < i ==> self.objects@[k].namespace@ != ns@,
            decreases self.objects@.len() - i,
        {
            if self.objects[i].namespace == wanted {
                return Some(i);
            }
            i = i + 1;
        }
        None
    }

    /// The index of the object with this namespace and file name, if any.
    fn index_of_object(&self, ns: &str, name: &str) -> (r: Option<usize>)
        ensures
            match r {
                Some(i) => 0 <= i < self.objects@.len() && self.objects@[i as int].namespace@
                    == ns@ && self.objects@[i as int].filename@ == name@,
                None => !self.spec_object_exists(ns@, name@),
            },
    {
        let wanted_ns = ns.to_owned();
        let wanted_name = name.to_owned();
        let mut i: usize = 0;
        while i < self.objects.len()
            invariant
                0 <= i <= self.objects@.len(),
                wanted_ns@ == ns@,
                wanted_name@ == name@,
                forall|k: int|
                    0 <= k < i ==> !(self.objects@[k].namespace@ == ns@
                        && self.objects@[k].filename@ == name@),
            decreases self.objects@.len() - i,
        {
            if self.objects[i].namespace == wanted_ns && self.objects[i].filename == wanted_name {
                return Some(i);
            }
            i = i + 1;
        }
        None
    }

    /// Creates the namespace and an empty writable file in it. Refused with
    /// an invalid-path fault when either component is unusable (empty, or a
    /// traversal component), and with a storage fault when the namespace is
    /// already taken.
    pub fn create(&mut self, namespace: String, filename: String) -> (r: Result<(), FileError>)
        requires
            old(self).wf(),
        ensures
            final(self).wf(),
            match r {
                Ok(()) => {
                    &&& is_valid_component(namespace@)
                    &&& is_valid_component(filename@)
                    &&& !old(self).spec_ns_exists(namespace@)
                    &&& final(self).objects@.len() == old(self).objects@.len() + 1
                    &&& final(self).objects@.drop_last() == old(self).objects@
                    &&& final(self).objects@.last().namespace == namespace
                    &&& final(self).objects@.last().filename == filename
                    &&& final(self).objects@.last().content@ == Seq::<u8>::empty()
                },
                Err(e) => {
                    &&& *final(self) == *old(self)
                    &&& (e == FileError::InvalidPath <==> !is_valid_component(namespace@)
                        || !is_valid_component(filename@))
                    &&& (e == FileError::StorageFault <==> is_valid_component(namespace@)
                        && is_valid_component(filename@) && old(self).spec_ns_exists(namespace@))
                    &&& (e == FileError::InvalidPath || e == FileError::StorageFault)
                },
            },
    {
        if !crate::paths::check_component(namespace.as_str())
            || !crate::paths::check_component(filename.as_str()) {
            return Err(FileError::InvalidPath);
        }
        if self.index_of_ns(namespace.as_str()).is_some() {
            return Err(FileError::StorageFault);
        }
        self.objects.push(ObjectRecord { namespace, filename, content: Vec::new() });
        proof {
            assert(self.objects@.drop_last() =~= old(self).objects@);
        }
        Ok(())
    }

    /// Appends a chunk to an open file, in arrival order. Refused with a
    /// not-found fault when the object does not exist.
    pub fn append(&mut self, ns: &str, name: &str, chunk: &[u8]) -> (r: Result<(), FileError>)
        requires
            old(self).wf(),
        ensures
            final(self).wf(),
            match r {
                Ok(()) => exists|i: int|
                    {
                        &&& 0 <= i < old(self).objects@.len()
                        &&& old(self).objects@[i].namespace@ == ns@
                        &&& old(self).objects@[i].filename@ == name@
                        &&& final(self).objects@.len() == old(self).objects@.len()
                        &&& final(self).objects@[i].namespace == old(self).objects@[i].namespace
                        &&& final(self).objects@[i].filename == old(self).objects@[i].filename
                        &&& final(self).objects@[i].content@ == old(self).objects@[i].content@
                            + chunk@
                        &&& forall|k: int|
                            0 <= k < old(self).objects@.len() && k != i ==> final(self).objects@[k]
                                == old(self).objects@[k]
                    },
                Err(e) => {
                    &&& e == FileError::NotFound
                    &&& !old(self).spec_object_exists(ns@, name@)
                    &&& *final(self) == *old(self)
                },
            },
    {
        let i = match self.index_of_object(ns, name) {
            Some(i) => i,
            None => {
                return Err(FileError::NotFound);
            },
        };
        let rec = &mut self.objects[i];
        rec.content.extend_from_slice(chunk);
        Ok(())
    }

    /// Truncates and rewrites an existing file. Refused with a not-found
    /// fault when the object does not exist.
    pub fn overwrite(&mut self, ns: &str, name: &str, body: &[u8]) -> (r: Result<(), FileError>)
        requires
            old(self).wf(),
        ensures
            final(self).wf(),
            match r {
                Ok(()) => exists|i: int|
                    {
                        &&& 0 <= i < old(self).objects@.len()
                        &&& old(self).objects@[i].namespace@ == ns@
                        &&& old(self).objects@[i].filename@ == name@
                        &&& final(self).objects@.len() == old(self).objects@.len()
                        &&& final(self).objects@[i].namespace == old(self).objects@[i].namespace
                        &&& final(self).objects@[i].filename == old(self).objects@[i].filename
                        &&& final(self).objects@[i].content@ == body@
                        &&& forall|k: int|
                            0 <= k < old(self).objects@.len() && k != i ==> final(self).objects@[k]
                                == old(self).objects@[k]
                    },
                Err(e) => {
                    &&& e == FileError::NotFound
                    &&& !old(self).spec_object_exists(ns@, name@)
                    &&& *final(self) == *old(self)
                },
            },
    {
        let i = match self.index_of_object(ns, name) {
            Some(i) => i,
            None => {
                return Err(FileError::NotFound);
            },
        };
        let rec = &mut self.objects[i];
        rec.content.clear();
        rec.content.extend_from_slice(body);
        Ok(())
    }

    /// Atomically moves a file within its namespace. Refused with an
    /// invalid-path fault when the new name is unusable, and with a
    /// not-found fault when the source does not exist.
    pub fn rename(&mut self, ns: &str, from: &str, to: String) -> (r: Result<(), FileError>)
        requires
            old(self).wf(),
        ensures
            final(self).wf(),
            match r {
                Ok(()) => {
                    &&& is_valid_component(to@)
                    &&& exists|i: int|
                        {
                            &&& 0 <= i < old(self).objects@.len()
                            &&& old(self).objects@[i].namespace@ == ns@
                            &&& old(self).objects@[i].filename@ == from@
                            &&& final(self).objects@.len() == old(self).objects@.len()
                            &&& final(self).objects@[i].namespace
                                == old(self).objects@[i].namespace
                            &&& final(self).objects@[i].filename == to
                            &&& final(self).objects@[i].content == old(self).objects@[i].content
                            &&& forall|k: int|
                                0 <= k < old(self).objects@.len() && k != i
                                    ==> final(self).objects@[k] == old(self).objects@[k]
                        }
                },
                Err(e) => {
                    &&& *final(self) == *old(self)
                    &&& (e == FileError::InvalidPath <==> !is_valid_component(to@))
                    &&& (e == FileError::NotFound <==> is_valid_component(to@)
                        && !old(self).spec_object_exists(ns@, from@))
                    &&& (e == FileError::InvalidPath || e == FileError::NotFound)
                },
            },
    {
        if !crate::paths::check_component(to.as_str()) {
            return Err(FileError::InvalidPath);
        }
        let i = match self.index_of_object(ns, from) {
            Some(i) => i,
            None => {
                return Err(FileError::NotFound);
            },
        };
        let rec = &mut self.objects[i];
        rec.filename = to;
        Ok(())
    }

    /// Recursively removes a namespace with everything under it. Refused
    /// with a not-found fault when the namespace is not in use.
    pub fn delete_namespace(&mut self, ns: &str) -> (r: Result<(), FileError>)
        requires
            old(self).wf(),
        ensures
            final(self).wf(),
            match r {
                Ok(()) => {
                    &&& !final(self).spec_ns_exists(ns@)
                    &&& exists|i: int|
                        {
                            &&& 0 <= i < old(self).objects@.len()
                            &&& old(self).objects@[i].namespace@ == ns@
                            &&& final(self).objects@ == old(self).objects@.remove(i)
                        }
                },
                Err(e) => {
                    &&& e == FileError::NotFound
                    &&& !old(self).spec_ns_exists(ns@)
                    &&& *final(self) == *old(self)
                },
            },
    {
        let i = match self.index_of_ns(ns) {
            Some(i) => i,
            None => {
                return Err(FileError::NotFound);
            },
        };
        self.objects.remove(i);
        proof {
            let post = self.objects@;
            let pre = old(self).objects@;
            assert forall|m: int| 0 <= m < post.len() implies post[m].namespace@ != ns@ by {
                if m < i as int {
                    assert(post[m] == pre[m]);
                } else {
                    assert(post[m] == pre[m + 1]);
                }
            }
            assert forall|m: int, n: int|
                0 <= m < n < post.len() implies post[m].namespace@ != post[n].namespace@ by {
                let m0 = if m < i as int {
                    m
                } else {
                    m + 1
                };
                let n0 = if n < i as int {
                    n
                } else {
                    n + 1
                };
                assert(post[m] == pre[m0] && post[n] == pre[n0]);
            }
            assert forall|m: int|
                0 <= m < post.len() implies is_valid_component(post[m].namespace@)
                && is_valid_component(post[m].filename@) by {
                let m0 = if m < i as int {
                    m
                } else {
                    m + 1
                };
                assert(post[m] == pre[m0]);
            }
        }
        Ok(())
    }

    /// Reads the bytes stored for a namespace and file name, if any.
    pub fn read(&self, ns: &str, name: &str) -> (r: Option<&Vec<u8>>)
        ensures
            match r {
                Some(c) => self.spec_object_at(ns@, name@, c@),
                None => !self.spec_object_exists(ns@, name@),
            },
    {
        match self.index_of_object(ns, name) {
            Some(i) => Some(&self.objects[i].content),
            None => None,
        }
    }
}

} // verus!
