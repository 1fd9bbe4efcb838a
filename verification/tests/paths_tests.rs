use file_host::paths::check_component;
use file_host::paths::join_path;
use file_host::paths::parse_filename_from_uri;
use file_host::paths::split_path;

#[test]
fn filename_of_simple_uri() {
    assert_eq!(parse_filename_from_uri("/report.pdf"), Some("report.pdf".to_string()));
}

#[test]
fn filename_of_nested_uri() {
    assert_eq!(parse_filename_from_uri("a/b/c.txt"), Some("c.txt".to_string()));
}

#[test]
fn filename_ignores_trailing_separators() {
    assert_eq!(parse_filename_from_uri("a/b/"), Some("b".to_string()));
    assert_eq!(parse_filename_from_uri("a/b///"), Some("b".to_string()));
}

#[test]
fn filename_rejects_root() {
    assert_eq!(parse_filename_from_uri("/"), None);
    assert_eq!(parse_filename_from_uri(""), None);
}

#[test]
fn filename_rejects_traversal() {
    assert_eq!(parse_filename_from_uri(".."), None);
    assert_eq!(parse_filename_from_uri("a/.."), None);
    assert_eq!(parse_filename_from_uri("."), None);
}

#[test]
fn join_composes_with_one_separator() {
    assert_eq!(join_path("ns", "file.txt"), "ns/file.txt".to_string());
    assert_eq!(join_path("https://files.example", "ns/file.txt"),
        "https://files.example/ns/file.txt".to_string());
}

#[test]
fn split_takes_first_separator() {
    assert_eq!(split_path("ns/file.txt"), Some(("ns".to_string(), "file.txt".to_string())));
    assert_eq!(split_path("a/b/c"), Some(("a".to_string(), "b/c".to_string())));
    assert_eq!(split_path("plain"), None);
}

#[test]
fn component_validity() {
    assert!(check_component("report.pdf"));
    assert!(check_component("a-b_c.1"));
    assert!(!check_component(""));
    assert!(!check_component("."));
    assert!(!check_component(".."));
    assert!(!check_component("a/b"));
}
