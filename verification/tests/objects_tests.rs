use file_host::FileError;
use file_host::objects::ObjectStore;

#[test]
fn create_rejects_unusable_components() {
    let mut s = ObjectStore::new();
    assert_eq!(s.create("tok".to_string(), "".to_string()), Err(FileError::InvalidPath));
    assert_eq!(s.create("tok".to_string(), "..".to_string()), Err(FileError::InvalidPath));
    assert_eq!(s.create("tok".to_string(), ".".to_string()), Err(FileError::InvalidPath));
    assert_eq!(s.create("".to_string(), "a.txt".to_string()), Err(FileError::InvalidPath));
}

#[test]
fn create_refuses_taken_namespace() {
    let mut s = ObjectStore::new();
    assert_eq!(s.create("tok".to_string(), "a.txt".to_string()), Ok(()));
    assert_eq!(s.create("tok".to_string(), "b.txt".to_string()), Err(FileError::StorageFault));
}

#[test]
fn append_accumulates_chunks_in_order() {
    let mut s = ObjectStore::new();
    s.create("tok".to_string(), "a.txt".to_string()).unwrap();
    s.append("tok", "a.txt", b"hello ").unwrap();
    s.append("tok", "a.txt", b"world").unwrap();
    assert_eq!(s.read("tok", "a.txt").unwrap().as_slice(), b"hello world");
}

#[test]
fn missing_objects_are_not_found() {
    let mut s = ObjectStore::new();
    assert_eq!(s.append("tok", "a.txt", b"x"), Err(FileError::NotFound));
    assert_eq!(s.overwrite("tok", "a.txt", b"x"), Err(FileError::NotFound));
    assert_eq!(s.rename("tok", "a.txt", "b.txt".to_string()), Err(FileError::NotFound));
    assert_eq!(s.delete_namespace("tok"), Err(FileError::NotFound));
    assert!(s.read("tok", "a.txt").is_none());
}

#[test]
fn overwrite_truncates() {
    let mut s = ObjectStore::new();
    s.create("tok".to_string(), "a.txt".to_string()).unwrap();
    s.append("tok", "a.txt", b"a long first version").unwrap();
    s.overwrite("tok", "a.txt", b"v2").unwrap();
    assert_eq!(s.read("tok", "a.txt").unwrap().as_slice(), b"v2");
}

#[test]
fn rename_moves_within_namespace() {
    let mut s = ObjectStore::new();
    s.create("tok".to_string(), "a.txt".to_string()).unwrap();
    s.append("tok", "a.txt", b"data").unwrap();
    assert_eq!(s.rename("tok", "a.txt", "/bad".to_string()), Err(FileError::InvalidPath));
    assert_eq!(s.rename("tok", "a.txt", "b.txt".to_string()), Ok(()));
    assert!(s.read("tok", "a.txt").is_none());
    assert_eq!(s.read("tok", "b.txt").unwrap().as_slice(), b"data");
}

#[test]
fn delete_namespace_removes_the_object() {
    let mut s = ObjectStore::new();
    s.create("tok".to_string(), "a.txt".to_string()).unwrap();
    s.create("tok2".to_string(), "a.txt".to_string()).unwrap();
    assert_eq!(s.delete_namespace("tok"), Ok(()));
    assert!(s.read("tok", "a.txt").is_none());
    assert!(s.read("tok2", "a.txt").is_some());
}
