use dirwatch::fs_node::{FsNode, PathState};
use dirwatch::vfs::{VfsDir, VfsFile, VfsNode};
use dirwatch::walk::{is_hidden, list_contains, walk_iter, walk_seq};
use dirwatch::watcher::Watcher;

fn file(name: &str, dir: &str, t: u64) -> VfsNode {
    VfsNode::File(VfsFile::new(name.to_string(), format!("{}/{}", dir, name), t))
}

fn dir(name: &str, parent: &str, t: u64, entries: Vec<VfsNode>) -> VfsNode {
    VfsNode::Directory(VfsDir::new(
        name.to_string(),
        format!("{}/{}", parent, name),
        t,
        entries,
    ))
}

#[test]
fn empty_directory_yields_no_children() {
    let snap = VfsDir::new("r".to_string(), "/r".to_string(), 1, Vec::new());
    let tree = walk_seq(&snap, true, &Vec::new());
    assert_eq!(tree.content.len(), 0);
    assert_eq!(tree.name, "r");
    assert_eq!(tree.path, "/r");
    assert_eq!(tree.last_modified, Some(1));
    assert!(tree.expanded);
}

#[test]
fn hidden_and_listed_names_are_pruned() {
    let entries = vec![
        dir(".git", "/r", 2, vec![file("HEAD", "/r/.git", 3)]),
        file("a.txt", "/r", 4),
        dir("node_modules", "/r", 5, vec![file("pkg.js", "/r/node_modules", 6)]),
    ];
    let snap = VfsDir::new("r".to_string(), "/r".to_string(), 1, entries);
    let ignore = vec!["node_modules".to_string()];
    let tree = walk_seq(&snap, true, &ignore);
    assert_eq!(tree.content.len(), 1);
    assert_eq!(tree.content[0].name(), "a.txt");
}

#[test]
fn pruning_is_recursive() {
    // The ignored directory holds a plain, non-hidden file; the file must
    // still be absent from the walk, at every depth.
    let entries = vec![
        dir("skipme", "/r", 2, vec![file("inner.txt", "/r/skipme", 3)]),
        dir(
            "keep",
            "/r",
            4,
            vec![dir("skipme", "/r/keep", 5, vec![file("deep.txt", "/r/keep/skipme", 6)])],
        ),
    ];
    let snap = VfsDir::new("r".to_string(), "/r".to_string(), 1, entries);
    let ignore = vec!["skipme".to_string()];
    let tree = walk_seq(&snap, false, &ignore);
    assert_eq!(tree.content.len(), 1);
    match &tree.content[0] {
        FsNode::Directory(keep) => {
            assert_eq!(keep.name, "keep");
            assert_eq!(keep.content.len(), 0);
        },
        FsNode::File(_) => panic!("expected a directory"),
    }
}

#[test]
fn strategies_agree_on_the_same_snapshot() {
    let entries = vec![
        file("z.txt", "/r", 2),
        dir(
            "sub",
            "/r",
            3,
            vec![file(".hidden", "/r/sub", 4), file("ok", "/r/sub", 5), dir(
                "deeper",
                "/r/sub",
                6,
                vec![file("leaf", "/r/sub/deeper", 7)],
            )],
        ),
        file(".dot", "/r", 8),
    ];
    let snap = VfsDir::new("r".to_string(), "/r".to_string(), 1, entries);
    let ignore = vec!["leafless".to_string()];
    let t1 = walk_seq(&snap, true, &ignore);
    let t2 = walk_iter(&snap, true, &ignore);
    assert_eq!(t1, t2);
}

#[test]
fn hidden_names_start_with_a_dot() {
    assert!(is_hidden(".git"));
    assert!(is_hidden("."));
    assert!(!is_hidden("git"));
    assert!(!is_hidden(""));
}

#[test]
fn ignore_list_membership() {
    let list = vec!["a".to_string(), "b".to_string()];
    assert!(list_contains(&list, "a"));
    assert!(list_contains(&list, "b"));
    assert!(!list_contains(&list, "c"));
    assert!(!list_contains(&Vec::new(), "a"));
}

#[test]
fn watcher_walk_replaces_tree_and_respects_config() {
    let mut w = Watcher::new("/r", PathState::Directory).unwrap();
    w.add_ignore("node_modules");
    let entries = vec![
        file(".env", "/r", 2),
        file("main.rs", "/r", 3),
        dir("node_modules", "/r", 4, vec![file("x", "/r/node_modules", 5)]),
    ];
    let snap = VfsDir::new("r".to_string(), "/r".to_string(), 1, entries);
    w.walk(&snap);
    assert_eq!(w.dir_info.content.len(), 1);
    assert_eq!(w.dir_info.content[0].name(), "main.rs");
}

#[test]
fn walk_keeps_hidden_when_policy_is_off() {
    let entries = vec![file(".env", "/r", 2), file("main.rs", "/r", 3)];
    let snap = VfsDir::new("r".to_string(), "/r".to_string(), 1, entries);
    let tree = walk_seq(&snap, false, &Vec::new());
    assert_eq!(tree.content.len(), 2);
    assert_eq!(tree.content[0].name(), ".env");
}

#[test]
fn walked_files_carry_path_and_time() {
    let entries = vec![file("a.txt", "/r", 42)];
    let snap = VfsDir::new("r".to_string(), "/r".to_string(), 1, entries);
    let tree = walk_seq(&snap, true, &Vec::new());
    match &tree.content[0] {
        FsNode::File(f) => {
            assert_eq!(f.name, "a.txt");
            assert_eq!(f.path, "/r/a.txt");
            assert_eq!(f.last_modified, Some(42));
            assert!(f.fields.is_none());
        },
        FsNode::Directory(_) => panic!("expected a file"),
    }
}

#[test]
fn aggregate_strategies_build_the_same_tree() {
    let entries = vec![
        file("a", "/r", 1),
        dir("d", "/r", 2, vec![file("b", "/r/d", 3), file(".c", "/r/d", 4)]),
    ];
    let snap = VfsDir::new("r".to_string(), "/r".to_string(), 1, entries);
    let mut w1 = Watcher::new("/r", PathState::Directory).unwrap();
    let mut w2 = Watcher::new("/r", PathState::Directory).unwrap();
    w1.walk(&snap);
    w2.walk_iterative(&snap);
    assert_eq!(w1, w2);
}
