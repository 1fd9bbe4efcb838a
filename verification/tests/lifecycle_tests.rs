use file_host::FileError;
use file_host::auth::RequiresAuth;
use file_host::auth::RequiresOwnership;
use file_host::lifecycle::Config;
use file_host::lifecycle::FileLifecycleManager;

fn config(cdn_enabled: bool) -> Config {
    Config {
        base_url: "https://files.example".to_string(),
        upload_directory: "/srv/uploads".to_string(),
        cdn_enabled,
        cdn_zone_id: String::new(),
        cdn_email: String::new(),
        cdn_api_key: String::new(),
    }
}

fn manager_with_user(key: &str) -> FileLifecycleManager {
    let mut m = FileLifecycleManager::new(config(true));
    m.register_user(1, key.to_string()).unwrap();
    m
}

#[test]
fn upload_round_trip() {
    let mut m = manager_with_user("k1");
    let url = m.upload_file("k1", "/report.pdf", "tok-one".to_string(), b"%PDF-1.4 data").unwrap();
    assert_eq!(url, "https://files.example/tok-one/report.pdf");
    let got = m.resolve("tok-one/report.pdf").unwrap();
    assert_eq!(got.as_slice(), b"%PDF-1.4 data");
}

#[test]
fn uploads_with_same_filename_stay_isolated() {
    let mut m = manager_with_user("k1");
    let url1 = m.upload_file("k1", "/photo.png", "tok-one".to_string(), b"first").unwrap();
    let url2 = m.upload_file("k1", "/photo.png", "tok-two".to_string(), b"second").unwrap();
    assert_ne!(url1, url2);
    assert_eq!(m.resolve("tok-one/photo.png").unwrap().as_slice(), b"first");
    assert_eq!(m.resolve("tok-two/photo.png").unwrap().as_slice(), b"second");
}

#[test]
fn fresh_namespaces_are_distinct() {
    let mut m = manager_with_user("k1");
    let url1 = m.upload_file_with_fresh_namespace("k1", "/photo.png", b"first").unwrap();
    let url2 = m.upload_file_with_fresh_namespace("k1", "/photo.png", b"second").unwrap();
    assert_ne!(url1, url2);
    let base = "https://files.example/";
    assert!(url1.starts_with(base) && url1.ends_with("/photo.png"));
    let token = &url1[base.len()..url1.len() - "/photo.png".len()];
    assert_eq!(token.len(), 36);
    assert!(token.chars().all(|c| c == '-' || c.is_ascii_hexdigit()));
}

#[test]
fn unknown_key_is_rejected_everywhere() {
    let mut m = manager_with_user("k1");
    m.upload_file("k1", "/a.txt", "tok-one".to_string(), b"data").unwrap();
    assert_eq!(m.upload_file("k9", "/b.txt", "tok-two".to_string(), b"x"),
        Err(FileError::Unauthorized));
    assert_eq!(m.overwrite_file("k9", "tok-one/a.txt", b"x"), Err(FileError::Unauthorized));
    assert_eq!(m.delete_file("k9", "tok-one/a.txt"), Err(FileError::Unauthorized));
    assert_eq!(m.move_file("k9", "tok-one/a.txt", "/b.txt"), Err(FileError::Unauthorized));
    assert_eq!(m.resolve("tok-one/a.txt").unwrap().as_slice(), b"data");
}

#[test]
fn foreign_key_cannot_touch_another_users_file() {
    let mut m = manager_with_user("k1");
    m.register_user(2, "k2".to_string()).unwrap();
    m.upload_file("k1", "/doc.txt", "tok-one".to_string(), b"original").unwrap();
    assert_eq!(m.overwrite_file("k2", "tok-one/doc.txt", b"tampered"),
        Err(FileError::Unauthorized));
    assert_eq!(m.delete_file("k2", "tok-one/doc.txt"), Err(FileError::Unauthorized));
    assert_eq!(m.move_file("k2", "tok-one/doc.txt", "/other.txt"),
        Err(FileError::Unauthorized));
    assert_eq!(m.resolve("tok-one/doc.txt").unwrap().as_slice(), b"original");
}

#[test]
fn overwrite_replaces_content_and_purges() {
    let mut m = manager_with_user("k1");
    m.upload_file("k1", "/a.txt", "tok-one".to_string(), b"v1").unwrap();
    assert!(m.purged.is_empty());
    let url = m.overwrite_file("k1", "tok-one/a.txt", b"v2").unwrap();
    assert_eq!(url, "https://files.example/tok-one/a.txt");
    assert_eq!(m.resolve("tok-one/a.txt").unwrap().as_slice(), b"v2");
    assert_eq!(m.purged, vec!["https://files.example/tok-one/a.txt".to_string()]);
}

#[test]
fn delete_removes_row_and_namespace() {
    let mut m = manager_with_user("k1");
    m.upload_file("k1", "/a.txt", "tok-one".to_string(), b"data").unwrap();
    assert_eq!(m.delete_file("k1", "tok-one/a.txt"), Ok(()));
    assert!(m.resolve("tok-one/a.txt").is_none());
    assert!(m.metadata.owner_of_path("tok-one/a.txt").is_none());
    assert!(m.purged.contains(&"https://files.example/tok-one/a.txt".to_string()));
}

#[test]
fn second_delete_is_forbidden() {
    let mut m = manager_with_user("k1");
    let url = m.upload_file_with_fresh_namespace("k1", "/report.pdf", b"%PDF-1.4 data").unwrap();
    let path = url["https://files.example/".len()..].to_string();
    assert_eq!(m.delete_file("k1", &path), Ok(()));
    assert_eq!(m.delete_file("k1", &path), Err(FileError::Unauthorized));
}

#[test]
fn move_reroutes_path_and_purges_old_url_only() {
    let mut m = manager_with_user("k1");
    m.upload_file("k1", "/old.txt", "tok-one".to_string(), b"payload").unwrap();
    let new_url = m.move_file("k1", "tok-one/old.txt", "/new.txt").unwrap();
    assert_eq!(new_url, "https://files.example/tok-one/new.txt");
    assert!(m.resolve("tok-one/old.txt").is_none());
    assert_eq!(m.resolve("tok-one/new.txt").unwrap().as_slice(), b"payload");
    assert!(m.purged.contains(&"https://files.example/tok-one/old.txt".to_string()));
    assert!(!m.purged.contains(&new_url));
    assert_eq!(m.metadata.owner_of_path("tok-one/new.txt"), Some(1));
    assert_eq!(m.metadata.owner_of_path("tok-one/old.txt"), None);
}

#[test]
fn move_takes_only_the_final_component_of_the_target() {
    let mut m = manager_with_user("k1");
    m.upload_file("k1", "/old.txt", "tok-one".to_string(), b"payload").unwrap();
    let new_url = m.move_file("k1", "tok-one/old.txt", "some/dir/new.txt").unwrap();
    assert_eq!(new_url, "https://files.example/tok-one/new.txt");
}

#[test]
fn move_with_unusable_target_is_rejected() {
    let mut m = manager_with_user("k1");
    m.upload_file("k1", "/old.txt", "tok-one".to_string(), b"payload").unwrap();
    assert_eq!(m.move_file("k1", "tok-one/old.txt", "/"), Err(FileError::InvalidPath));
    assert_eq!(m.move_file("k1", "tok-one/old.txt", ".."), Err(FileError::InvalidPath));
    assert_eq!(m.resolve("tok-one/old.txt").unwrap().as_slice(), b"payload");
}

#[test]
fn upload_with_unusable_path_is_rejected() {
    let mut m = manager_with_user("k1");
    assert_eq!(m.upload_file("k1", "/", "tok-one".to_string(), b"x"),
        Err(FileError::InvalidPath));
    assert_eq!(m.upload_file("k1", "..", "tok-one".to_string(), b"x"),
        Err(FileError::InvalidPath));
    assert_eq!(m.upload_file("k1", "/a.txt", "bad/token".to_string(), b"x"),
        Err(FileError::InvalidPath));
}

#[test]
fn reused_namespace_token_is_refused() {
    let mut m = manager_with_user("k1");
    m.upload_file("k1", "/a.txt", "tok-one".to_string(), b"data").unwrap();
    // same path: the metadata insert hits the uniqueness constraint
    assert_eq!(m.upload_file("k1", "/a.txt", "tok-one".to_string(), b"x"),
        Err(FileError::MetadataFault));
    // same namespace, new name: object creation fails and the fresh
    // metadata row is rolled back
    assert_eq!(m.upload_file("k1", "/b.txt", "tok-one".to_string(), b"x"),
        Err(FileError::StorageFault));
    assert!(m.metadata.owner_of_path("tok-one/b.txt").is_none());
    assert!(m.resolve("tok-one/b.txt").is_none());
    assert_eq!(m.resolve("tok-one/a.txt").unwrap().as_slice(), b"data");
}

#[test]
fn duplicate_users_are_refused() {
    let mut m = manager_with_user("k1");
    assert_eq!(m.register_user(2, "k1".to_string()), Err(FileError::MetadataFault));
    assert_eq!(m.register_user(1, "k2".to_string()), Err(FileError::MetadataFault));
    assert_eq!(m.register_user(2, "k2".to_string()), Ok(()));
}

#[test]
fn auth_gate_admits_only_registered_keys() {
    let m = manager_with_user("k1");
    let gate = RequiresAuth.new_transform();
    assert!(gate.call(&m.metadata, Some("k1")));
    assert!(!gate.call(&m.metadata, Some("k9")));
    assert!(!gate.call(&m.metadata, None));
}

#[test]
fn ownership_gate_admits_only_the_owner() {
    let mut m = manager_with_user("k1");
    m.register_user(2, "k2".to_string()).unwrap();
    m.upload_file("k1", "/a.txt", "tok-one".to_string(), b"data").unwrap();
    let gate = RequiresOwnership.new_transform();
    assert!(gate.call(&m.metadata, Some("k1"), "tok-one/a.txt"));
    assert!(!gate.call(&m.metadata, Some("k2"), "tok-one/a.txt"));
    assert!(!gate.call(&m.metadata, Some("k9"), "tok-one/a.txt"));
    assert!(!gate.call(&m.metadata, None, "tok-one/a.txt"));
    assert!(!gate.call(&m.metadata, Some("k1"), "tok-two/a.txt"));
}

#[test]
fn purge_log_stays_empty_without_cdn() {
    let mut m = FileLifecycleManager::new(config(false));
    m.register_user(1, "k1".to_string()).unwrap();
    m.upload_file("k1", "/a.txt", "tok-one".to_string(), b"v1").unwrap();
    m.overwrite_file("k1", "tok-one/a.txt", b"v2").unwrap();
    m.move_file("k1", "tok-one/a.txt", "/b.txt").unwrap();
    m.delete_file("k1", "tok-one/b.txt").unwrap();
    assert!(m.purged.is_empty());
}

#[test]
fn purge_request_composition() {
    assert_eq!(
        file_host::lifecycle::purge_endpoint("zone1"),
        "https://api.cloudflare.com/client/v4/zones/zone1/purge_cache".to_string()
    );
    assert_eq!(
        file_host::lifecycle::purge_request_body("https://files.example/t/a.txt"),
        "{\"files\": [\"https://files.example/t/a.txt\"]}".to_string()
    );
}
