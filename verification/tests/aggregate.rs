use dirwatch::fs_node::{DirInfo, PathState};
use dirwatch::watcher::{Watcher, WatcherError};

#[test]
fn new_validates_the_observed_path_state() {
    assert_eq!(
        Watcher::new("/gone", PathState::Missing).map(|_| ()),
        Err(WatcherError::PathDoesNotExist)
    );
    assert_eq!(
        Watcher::new("/a/file.txt", PathState::File).map(|_| ()),
        Err(WatcherError::NotADirectory)
    );
    assert_eq!(
        Watcher::new("/", PathState::Directory).map(|_| ()),
        Err(WatcherError::InvalidDirectoryName)
    );
}

#[test]
fn new_fills_defaults() {
    let w = Watcher::new("/home/me/project", PathState::Directory).unwrap();
    assert_eq!(w.dir_name, "project");
    assert_eq!(w.path, "/home/me/project");
    assert!(w.ignore_hidden);
    assert!(w.ignore_list.is_empty());
    assert_eq!(w.dir_info.name, "project");
    assert!(w.dir_info.content.is_empty());
    assert_eq!(w.path_string(), "/home/me/project");
}

#[test]
fn from_keeps_the_given_tree() {
    let mut tree = DirInfo::new("/r/data", PathState::Directory, Some(5), true, Vec::new(), None)
        .unwrap();
    tree.add_field("note".to_string(), "kept".to_string());
    let w = Watcher::from(tree.clone(), PathState::Directory).unwrap();
    assert_eq!(w.dir_name, "data");
    assert_eq!(w.path, "/r/data");
    assert_eq!(w.dir_info, tree);
}

#[test]
fn from_validates_the_observed_path_state() {
    let tree = DirInfo::new("/r/data", PathState::Directory, None, true, Vec::new(), None).unwrap();
    assert_eq!(
        Watcher::from(tree, PathState::Missing).map(|_| ()),
        Err(WatcherError::PathDoesNotExist)
    );
}

#[test]
fn ignore_list_edits() {
    let mut w = Watcher::new("/r", PathState::Directory).unwrap();
    w.add_ignore("a");
    w.add_ignore("b");
    w.add_ignore("a");
    assert_eq!(w.ignore_list, vec!["a", "b", "a"]);
    w.remove_ignore("a");
    assert_eq!(w.ignore_list, vec!["b"]);
    w.ignore_reset();
    assert!(w.ignore_list.is_empty());
}

#[test]
fn set_dir_info_replaces_the_tree() {
    let mut w = Watcher::new("/r", PathState::Directory).unwrap();
    let tree = DirInfo::new("/elsewhere/x", PathState::Directory, Some(1), false, Vec::new(), None)
        .unwrap();
    w.set_dir_info(tree.clone());
    assert_eq!(w.dir_info, tree);
}

#[test]
fn build_tree_renders_the_stored_tree() {
    let w = Watcher::new("/r", PathState::Directory).unwrap();
    let lines = w.build_tree();
    assert_eq!(lines.len(), 1);
    assert!(lines[0].contains('r'));
}
