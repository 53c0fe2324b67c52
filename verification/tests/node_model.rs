use dirwatch::fs_node::{DirInfo, FileInfo, FsNode, FsNodeError, PathState};
use std::cmp::Ordering;

fn sample_file(name: &str, path: &str) -> FileInfo {
    FileInfo::new(name.to_string(), path.to_string(), Some(7), None)
}

#[test]
fn node_kind_and_accessors() {
    let f = FsNode::File(sample_file("a.txt", "/r/a.txt"));
    assert!(!f.is_dir());
    assert_eq!(f.name(), "a.txt");
    assert_eq!(f.path(), "/r/a.txt");

    let d = DirInfo::new("/r", PathState::Directory, None, true, Vec::new(), None).unwrap();
    let dn = FsNode::Directory(d);
    assert!(dn.is_dir());
    assert_eq!(dn.name(), "r");
    assert_eq!(dn.path(), "/r");
}

#[test]
fn dir_new_rejects_missing_path() {
    let r = DirInfo::new("/nope", PathState::Missing, None, true, Vec::new(), None);
    assert_eq!(r, Err(FsNodeError::PathDoesNotExist));
}

#[test]
fn dir_new_rejects_file_path() {
    let r = DirInfo::new("/r/a.txt", PathState::File, None, true, Vec::new(), None);
    assert_eq!(r, Err(FsNodeError::IncorrectFSType));
}

#[test]
fn dir_new_rejects_invalid_name() {
    let r = DirInfo::new("/", PathState::Directory, None, true, Vec::new(), None);
    assert_eq!(r, Err(FsNodeError::InvalidName));
    let r2 = DirInfo::new("/a/..", PathState::Directory, None, true, Vec::new(), None);
    assert_eq!(r2, Err(FsNodeError::InvalidName));
}

#[test]
fn dir_new_takes_final_component() {
    let d = DirInfo::new("/home/me/project/", PathState::Directory, Some(3), false, Vec::new(), None)
        .unwrap();
    assert_eq!(d.name, "project");
    assert_eq!(d.path, "/home/me/project/");
    assert_eq!(d.last_modified, Some(3));
    assert!(!d.expanded);
}

#[test]
fn dir_from_defaults() {
    let d = DirInfo::from("/tmp/work", PathState::Directory).unwrap();
    assert_eq!(d.name, "work");
    assert_eq!(d.last_modified, None);
    assert!(d.expanded);
    assert!(d.content.is_empty());
    assert!(d.fields.is_none());
}

#[test]
fn expand_flags_do_not_touch_children() {
    let mut d = DirInfo::from("/tmp/work", PathState::Directory).unwrap();
    d.insert(FsNode::File(sample_file("a", "/tmp/work/a")));
    d.unexpand();
    assert!(!d.expanded);
    assert_eq!(d.content.len(), 1);
    d.expand();
    assert!(d.expanded);
    d.expanded(false);
    assert!(!d.expanded);
    assert_eq!(d.content.len(), 1);
}

#[test]
fn insert_and_remove_by_path() {
    let mut d = DirInfo::from("/r", PathState::Directory).unwrap();
    d.insert(FsNode::File(sample_file("a", "/r/a")));
    d.insert(FsNode::File(sample_file("b", "/r/b")));
    d.insert(FsNode::File(sample_file("a2", "/r/a")));
    assert_eq!(d.content.len(), 3);
    d.remove("/r/a");
    assert_eq!(d.content.len(), 1);
    assert_eq!(d.content[0].path(), "/r/b");
    d.remove("/r/missing");
    assert_eq!(d.content.len(), 1);
}

#[test]
fn set_content_replaces_wholesale() {
    let mut d = DirInfo::from("/r", PathState::Directory).unwrap();
    d.insert(FsNode::File(sample_file("a", "/r/a")));
    d.set_content(vec![FsNode::File(sample_file("x", "/r/x"))]);
    assert_eq!(d.content.len(), 1);
    assert_eq!(d.content[0].name(), "x");
}

#[test]
fn add_field_inserts_and_replaces() {
    let mut d = DirInfo::from("/r", PathState::Directory).unwrap();
    assert!(d.fields.is_none());
    d.add_field("owner".to_string(), "ada".to_string());
    assert_eq!(d.fields, Some(vec![("owner".to_string(), "ada".to_string())]));
    d.add_field("color".to_string(), "red".to_string());
    d.add_field("owner".to_string(), "grace".to_string());
    assert_eq!(
        d.fields,
        Some(vec![
            ("owner".to_string(), "grace".to_string()),
            ("color".to_string(), "red".to_string()),
        ])
    );
}

#[test]
fn file_add_field_and_setters() {
    let mut f = sample_file("a", "/r/a");
    f.set_name("b");
    assert_eq!(f.name, "b");
    f.set_path("/r/b");
    assert_eq!(f.path_string(), "/r/b");
    f.set_last_modified(99);
    assert_eq!(f.last_modified, Some(99));
    f.add_field("k".to_string(), "v".to_string());
    f.add_field("k".to_string(), "w".to_string());
    assert_eq!(f.fields, Some(vec![("k".to_string(), "w".to_string())]));
}

#[test]
fn cmp_orders_against_stored_time() {
    let mut d = DirInfo::from("/r", PathState::Directory).unwrap();
    assert_eq!(d.cmp(&5), None);
    d.set_last_modified(10);
    assert_eq!(d.cmp(&20), Some(Ordering::Less));
    assert_eq!(d.cmp(&10), Some(Ordering::Equal));
    assert_eq!(d.cmp(&5), Some(Ordering::Greater));
    let f = FileInfo::new("a".to_string(), "/r/a".to_string(), Some(4), None);
    assert_eq!(f.cmp(&4), Some(Ordering::Equal));
    assert_eq!(FileInfo::default().cmp(&4), None);
}

#[test]
fn parent_of_paths() {
    let d = DirInfo::new("/a/b/c", PathState::Directory, None, true, Vec::new(), None).unwrap();
    assert_eq!(d.parent(), Some("/a/b".to_string()));
    let d2 = DirInfo::new("/a", PathState::Directory, None, true, Vec::new(), None).unwrap();
    assert_eq!(d2.parent(), Some("/".to_string()));
    let f = sample_file("x", "x");
    assert_eq!(f.parent(), Some("".to_string()));
}

#[test]
fn clone_and_build_are_deep() {
    let mut sub = DirInfo::from("/r/s", PathState::Directory).unwrap();
    sub.insert(FsNode::File(sample_file("g", "/r/s/g")));
    let mut d = DirInfo::from("/r", PathState::Directory).unwrap();
    d.insert(FsNode::File(sample_file("f", "/r/f")));
    d.insert(FsNode::Directory(sub));
    let copy = d.build();
    assert_eq!(copy, d);
    let copy2 = d.clone();
    assert_eq!(copy2, d);
    let node = FsNode::Directory(d);
    assert_eq!(node.clone(), node);
}

#[test]
fn defaults_are_empty() {
    let d = DirInfo::default();
    assert_eq!(d.name, "");
    assert_eq!(d.path, "");
    assert_eq!(d.last_modified, None);
    assert!(!d.expanded);
    assert!(d.content.is_empty());
    assert!(d.fields.is_none());
    let f = FileInfo::default();
    assert_eq!(f.name, "");
    assert_eq!(f.path, "");
}

#[test]
fn error_messages() {
    assert_eq!(FsNodeError::PathDoesNotExist.message(), "Path does not exist");
    assert_eq!(FsNodeError::IncorrectFSType.message(), "Incorrect filesystem type");
    assert_eq!(FsNodeError::InvalidName.message(), "Invalid name was provided");
}
