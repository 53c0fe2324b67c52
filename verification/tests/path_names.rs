use dirwatch::paths::{file_name_of, parent_of, str_eq};

#[test]
fn file_name_takes_the_last_component() {
    assert_eq!(file_name_of("/a/b/c"), Some("c".to_string()));
    assert_eq!(file_name_of("/a/b/c///"), Some("c".to_string()));
    assert_eq!(file_name_of("plain"), Some("plain".to_string()));
    assert_eq!(file_name_of("/a/.hidden"), Some(".hidden".to_string()));
}

#[test]
fn file_name_rejects_empty_and_dots() {
    assert_eq!(file_name_of(""), None);
    assert_eq!(file_name_of("/"), None);
    assert_eq!(file_name_of("///"), None);
    assert_eq!(file_name_of("/a/."), None);
    assert_eq!(file_name_of("/a/.."), None);
}

#[test]
fn parent_drops_the_last_component() {
    assert_eq!(parent_of("/a/b/c"), Some("/a/b".to_string()));
    assert_eq!(parent_of("/a"), Some("/".to_string()));
    assert_eq!(parent_of("a"), Some("".to_string()));
    assert_eq!(parent_of("a/b/"), Some("a".to_string()));
    assert_eq!(parent_of("/"), None);
    assert_eq!(parent_of(""), None);
}

#[test]
fn string_equality_by_characters() {
    assert!(str_eq("abc", "abc"));
    assert!(!str_eq("abc", "abd"));
    assert!(!str_eq("abc", "ab"));
    assert!(str_eq("", ""));
}
