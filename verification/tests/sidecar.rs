use dirwatch::fs_node::{DirInfo, FileInfo, FsNode, PathState};
use dirwatch::watcher::{Watcher, WatcherError};

fn sample_watcher() -> Watcher {
    let mut w = Watcher::new("/home/me/project", PathState::Directory).unwrap();
    w.add_ignore("node_modules");
    w.add_ignore("target");
    let mut sub = DirInfo::new("/home/me/project/src", PathState::Directory, Some(11), false, Vec::new(), None)
        .unwrap();
    sub.insert(FsNode::File(FileInfo::new(
        "main.rs".to_string(),
        "/home/me/project/src/main.rs".to_string(),
        Some(12),
        None,
    )));
    sub.add_field("lang".to_string(), "rust".to_string());
    let mut tree = DirInfo::new("/home/me/project", PathState::Directory, Some(10), true, Vec::new(), None)
        .unwrap();
    tree.insert(FsNode::File(FileInfo::new(
        "README".to_string(),
        "/home/me/project/README".to_string(),
        None,
        Some(vec![("k".to_string(), "v".to_string())]),
    )));
    tree.insert(FsNode::Directory(sub));
    w.set_dir_info(tree);
    w
}

#[test]
fn round_trip_reproduces_every_field() {
    let w = sample_watcher();
    let bytes = w.encode();
    let w2 = Watcher::decode(&bytes).unwrap();
    assert_eq!(w2, w);
}

#[test]
fn round_trip_of_a_fresh_watcher() {
    let w = Watcher::new("/tmp/x", PathState::Directory).unwrap();
    let bytes = w.encode();
    let w2 = Watcher::decode(&bytes).unwrap();
    assert_eq!(w2, w);
}

#[test]
fn empty_payload_is_a_decode_error() {
    let bytes: Vec<u8> = Vec::new();
    assert_eq!(Watcher::decode(&bytes), Err(WatcherError::DecodeError));
}

#[test]
fn truncated_payload_is_a_decode_error() {
    let w = sample_watcher();
    let mut bytes = w.encode();
    bytes.truncate(bytes.len() - 3);
    assert_eq!(Watcher::decode(&bytes), Err(WatcherError::DecodeError));
}

#[test]
fn trailing_garbage_is_a_decode_error() {
    let w = sample_watcher();
    let mut bytes = w.encode();
    bytes.push(0);
    assert_eq!(Watcher::decode(&bytes), Err(WatcherError::DecodeError));
}

#[test]
fn corrupt_tag_is_a_decode_error() {
    let w = sample_watcher();
    let mut bytes = w.encode();
    let last = bytes.len() - 1;
    bytes[last] = bytes[last].wrapping_add(1);
    let r = Watcher::decode(&bytes);
    assert!(r.is_err());
}

#[test]
fn round_trip_keeps_names_outside_ascii() {
    let mut w = Watcher::new("/r/\u{00fc}bung", PathState::Directory).unwrap();
    w.add_ignore("caf\u{00e9}");
    let mut tree = w.dir_info.clone();
    tree.insert(FsNode::File(FileInfo::new(
        "\u{5199}\u{771f}.png".to_string(),
        "/r/\u{00fc}bung/\u{5199}\u{771f}.png".to_string(),
        Some(9),
        None,
    )));
    w.set_dir_info(tree);
    let bytes = w.encode();
    let w2 = Watcher::decode(&bytes).unwrap();
    assert_eq!(w2, w);
    assert_eq!(w2.dir_name, "\u{00fc}bung");
}

#[test]
fn round_trip_keeps_empty_attribute_values() {
    let mut w = Watcher::new("/r/x", PathState::Directory).unwrap();
    let mut tree = w.dir_info.clone();
    tree.add_field(String::new(), String::new());
    w.set_dir_info(tree);
    let bytes = w.encode();
    let w2 = Watcher::decode(&bytes).unwrap();
    assert_eq!(w2, w);
}

#[test]
fn error_messages_spell_the_failures() {
    assert_eq!(WatcherError::PathDoesNotExist.message(), "Path does not exist");
    assert_eq!(WatcherError::NotADirectory.message(), "The path is not a directory");
    assert_eq!(WatcherError::InvalidDirectoryName.message(), "Invalid directory name");
    assert_eq!(WatcherError::IOError("boom".to_string()).message(), "boom");
    assert_eq!(WatcherError::DecodeError.message(), "The stored snapshot did not decode");
}
