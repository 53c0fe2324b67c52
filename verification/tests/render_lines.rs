use dirwatch::fs_node::{DirInfo, FileInfo, FsNode, PathState};
use dirwatch::render::build_tree;

const BOLD_GREEN: &str = "\u{1b}[1;32m";
const BOLD_BLUE: &str = "\u{1b}[1;34m";
const RESET: &str = "\u{1b}[0m";

fn label(name: &str, expanded: bool) -> String {
    let marker = if expanded { "\u{2c5}" } else { "\u{2c3}" };
    format!("[{}{}{}]{}{}{}", BOLD_GREEN, marker, RESET, BOLD_BLUE, name, RESET)
}

fn file(name: &str, dir: &str) -> FsNode {
    FsNode::File(FileInfo::new(name.to_string(), format!("{}/{}", dir, name), None, None))
}

fn plain_dir(name: &str, parent: &str, expanded: bool, content: Vec<FsNode>) -> DirInfo {
    DirInfo::new(&format!("{}/{}", parent, name), PathState::Directory, None, expanded, content, None)
        .unwrap()
}

const JOINT: &str = " \u{251c}\u{2014}\u{2014}";
const CORNER: &str = " \u{2514}\u{2014}\u{2014}";

#[test]
fn one_file_one_expanded_subdir() {
    // Root with one file `f` and one expanded subdirectory `d` holding one
    // file `g`: the file precedes the directory, the last child at each
    // level takes the corner connector, and `g` is indented under the
    // blank padding of its last-child parent.
    let sub = plain_dir("d", "/r", true, vec![file("g", "/r/d")]);
    let root = plain_dir("r", "", true, vec![file("f", "/r"), FsNode::Directory(sub)]);
    let lines = build_tree(&root);
    assert_eq!(
        lines,
        vec![
            label("r", true),
            format!("{} f", JOINT),
            format!("{}{}", CORNER, label("d", true)),
            format!("    {} g", CORNER),
        ]
    );
}

#[test]
fn files_precede_directories() {
    let sub = plain_dir("adir", "/r", false, Vec::new());
    let root = plain_dir(
        "r",
        "",
        true,
        vec![FsNode::Directory(sub), file("z1", "/r"), file("z2", "/r")],
    );
    let lines = build_tree(&root);
    assert_eq!(
        lines,
        vec![
            label("r", true),
            format!("{} z1", JOINT),
            format!("{} z2", JOINT),
            format!("{}{}", CORNER, label("adir", false)),
        ]
    );
}

#[test]
fn collapsed_directory_hides_descendants() {
    let sub = plain_dir("d", "/r", false, vec![file("g", "/r/d")]);
    let root = plain_dir("r", "", true, vec![FsNode::Directory(sub)]);
    let lines = build_tree(&root);
    assert_eq!(lines, vec![label("r", true), format!("{}{}", CORNER, label("d", false))]);
}

#[test]
fn collapsed_root_still_shows_its_own_line() {
    let root = plain_dir("r", "", false, vec![file("f", "/r")]);
    let lines = build_tree(&root);
    assert_eq!(lines, vec![label("r", false)]);
}

#[test]
fn middle_child_ancestors_continue_the_line() {
    let inner = plain_dir("mid", "/r", true, vec![file("leaf", "/r/mid")]);
    let tail = FsNode::File(FileInfo::new("tail".to_string(), "/r/tail".to_string(), None, None));
    let root = plain_dir("r", "", true, vec![FsNode::Directory(inner), tail]);
    let lines = build_tree(&root);
    // `tail` is a file, so it comes first; `mid` is last and its child
    // sits under blank padding.
    assert_eq!(
        lines,
        vec![
            label("r", true),
            format!("{} tail", JOINT),
            format!("{}{}", CORNER, label("mid", true)),
            format!("    {} leaf", CORNER),
        ]
    );
}

#[test]
fn vline_padding_under_a_non_last_directory() {
    let d1 = plain_dir("d1", "/r", true, vec![file("a", "/r/d1")]);
    let d2 = plain_dir("d2", "/r", true, vec![file("b", "/r/d2")]);
    let root = plain_dir("r", "", true, vec![FsNode::Directory(d1), FsNode::Directory(d2)]);
    let lines = build_tree(&root);
    let vline = " \u{2502}  ";
    assert_eq!(
        lines,
        vec![
            label("r", true),
            format!("{}{}", JOINT, label("d1", true)),
            format!("{}{} a", vline, CORNER),
            format!("{}{}", CORNER, label("d2", true)),
            format!("    {} b", CORNER),
        ]
    );
}
