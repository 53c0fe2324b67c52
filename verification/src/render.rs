//! The renderer: a pure function from a mirrored tree to the ordered
//! lines of its textual display.  At each level files are listed before
//! sub-directories; the last child at a level gets a corner connector,
//! earlier children a branch connector; each ancestor contributes either
//! a vertical continuation or blank padding, by whether it was itself a
//! last child.  A collapsed directory shows its own line and none of its
//! descendants'.

use vstd::prelude::*;
use crate::fs_node::{dir_view, DirInfo, DirInfoView, FsNode, FsNodeView};

verus! {

/// Bold green wrapping, as the display codes write it.
pub open spec fn style_bold_green(t: Seq<char>) -> Seq<char> {
    seq!['\u{1b}', '[', '1', ';', '3', '2', 'm'] + t + seq!['\u{1b}', '[', '0', 'm']
}

/// Bold blue wrapping, as the display codes write it.
pub open spec fn style_bold_blue(t: Seq<char>) -> Seq<char> {
    seq!['\u{1b}', '[', '1', ';', '3', '4', 'm'] + t + seq!['\u{1b}', '[', '0', 'm']
}

/// The open or closed marker of a directory.
pub open spec fn marker(expanded: bool) -> Seq<char> {
    if expanded {
        seq!['\u{2c5}']
    } else {
        seq!['\u{2c3}']
    }
}

/// The line a directory shows for itself: a bracketed marker, then the name.
pub open spec fn dir_label(name: Seq<char>, expanded: bool) -> Seq<char> {
    seq!['['] + style_bold_green(marker(expanded)) + seq![']'] + style_bold_blue(name)
}

/// Branch connector of a child that is not the last at its level.
pub open spec fn joint_prefix() -> Seq<char> {
    seq![' ', '\u{251c}', '\u{2014}', '\u{2014}']
}

/// Corner connector of the last child at its level.
pub open spec fn corner_prefix() -> Seq<char> {
    seq![' ', '\u{2514}', '\u{2014}', '\u{2014}']
}

/// Continuation padding under an ancestor that was not a last child.
pub open spec fn vline_pad() -> Seq<char> {
    seq![' ', '\u{2502}', ' ', ' ']
}

/// Blank padding under an ancestor that was a last child.
pub open spec fn blank_pad() -> Seq<char> {
    seq![' ', ' ', ' ', ' ']
}

pub open spec fn is_file_node(n: FsNodeView) -> bool {
    n matches FsNodeView::File(_)
}

/// The file nodes of `s`, in order.
pub open spec fn files_of(s: Seq<FsNodeView>) -> Seq<FsNodeView>
    decreases s,
{
    if s.len() == 0 {
        seq![]
    } else {
        let rest = files_of(s.drop_first());
        if is_file_node(s[0]) {
            seq![s[0]] + rest
        } else {
            rest
        }
    }
}

/// The directory nodes of `s`, in order.
pub open spec fn dirs_of(s: Seq<FsNodeView>) -> Seq<FsNodeView>
    decreases s,
{
    if s.len() == 0 {
        seq![]
    } else {
        let rest = dirs_of(s.drop_first());
        if is_file_node(s[0]) {
            rest
        } else {
            seq![s[0]] + rest
        }
    }
}

/// The display order of one level: files first, then directories, ties
/// in tree order.
pub open spec fn files_first(s: Seq<FsNodeView>) -> Seq<FsNodeView> {
    files_of(s) + dirs_of(s)
}

/// Number of nodes in the subtree of `n`, this node included.
pub open spec fn node_size(n: FsNodeView) -> nat
    decreases n,
{
    match n {
        FsNodeView::File(_) => 1,
        FsNodeView::Directory(d) => 1 + seq_size(d.content),
    }
}

/// Number of nodes in the subtrees of `s` together.
pub open spec fn seq_size(s: Seq<FsNodeView>) -> nat
    decreases s,
{
    if s.len() == 0 {
        0
    } else {
        node_size(s[0]) + seq_size(s.drop_first())
    }
}

pub proof fn lemma_seq_size_concat(a: Seq<FsNodeView>, b: Seq<FsNodeView>)
    ensures
        seq_size(a + b) == seq_size(a) + seq_size(b),
    decreases a,
{
    if a.len() == 0 {
        assert(a + b =~= b);
    } else {
        lemma_seq_size_concat(a.drop_first(), b);
        assert((a + b).drop_first() =~= a.drop_first() + b);
        assert((a + b)[0] == a[0]);
    }
}

pub proof fn lemma_partition_size(s: Seq<FsNodeView>)
    ensures
        seq_size(files_of(s)) + seq_size(dirs_of(s)) == seq_size(s),
    decreases s,
{
    if s.len() > 0 {
        lemma_partition_size(s.drop_first());
        assert(seq_size(Seq::<FsNodeView>::empty()) == 0);
        assert(seq![s[0]].drop_first() =~= Seq::<FsNodeView>::empty());
        assert(seq_size(seq![s[0]]) == node_size(s[0]));
        if is_file_node(s[0]) {
            lemma_seq_size_concat(seq![s[0]], files_of(s.drop_first()));
        } else {
            lemma_seq_size_concat(seq![s[0]], dirs_of(s.drop_first()));
        }
    }
}

pub proof fn lemma_partition_len(s: Seq<FsNodeView>)
    ensures
        files_of(s).len() + dirs_of(s).len() == s.len(),
    decreases s,
{
    if s.len() > 0 {
        lemma_partition_len(s.drop_first());
    }
}

pub proof fn lemma_files_of_concat(a: Seq<FsNodeView>, b: Seq<FsNodeView>)
    ensures
        files_of(a + b) == files_of(a) + files_of(b),
        dirs_of(a + b) == dirs_of(a) + dirs_of(b),
    decreases a,
{
    if a.len() == 0 {
        assert(a + b =~= b);
        assert(files_of(a) + files_of(b) =~= files_of(b));
        assert(dirs_of(a) + dirs_of(b) =~= dirs_of(b));
    } else {
        lemma_files_of_concat(a.drop_first(), b);
        assert((a + b).drop_first() =~= a.drop_first() + b);
        assert((a + b)[0] == a[0]);
        if is_file_node(a[0]) {
            assert(seq![a[0]] + (files_of(a.drop_first()) + files_of(b)) =~= (seq![a[0]] + files_of(
                a.drop_first(),
            )) + files_of(b));
        } else {
            assert(seq![a[0]] + (dirs_of(a.drop_first()) + dirs_of(b)) =~= (seq![a[0]] + dirs_of(
                a.drop_first(),
            )) + dirs_of(b));
        }
    }
}

/// The lines one entry contributes: its own line, and, for an expanded
/// directory, the lines of its children under a grown prefix.
pub open spec fn entry_lines(n: FsNodeView, path: Seq<char>, is_last: bool) -> Seq<Seq<char>>
    decreases node_size(n), 0nat,
    via entry_lines_dec
{
    let prefix = path + if is_last {
        corner_prefix()
    } else {
        joint_prefix()
    };
    match n {
        FsNodeView::File(f) => seq![prefix + seq![' '] + f.name],
        FsNodeView::Directory(d) => {
            let label = seq![prefix + dir_label(d.name, d.expanded)];
            if d.expanded {
                label + render_children(
                    files_first(d.content),
                    path + if is_last {
                        blank_pad()
                    } else {
                        vline_pad()
                    },
                )
            } else {
                label
            }
        },
    }
}

#[via_fn]
proof fn entry_lines_dec(n: FsNodeView, path: Seq<char>, is_last: bool) {
    match n {
        FsNodeView::File(_) => {},
        FsNodeView::Directory(d) => {
            lemma_partition_size(d.content);
            lemma_seq_size_concat(files_of(d.content), dirs_of(d.content));
        },
    }
}

/// The lines of a level: the entries of `cs` in order, the last one with
/// the corner connector.
pub open spec fn render_children(cs: Seq<FsNodeView>, path: Seq<char>) -> Seq<Seq<char>>
    decreases seq_size(cs), cs.len(),
{
    if cs.len() == 0 {
        seq![]
    } else {
        entry_lines(cs[0], path, cs.len() == 1) + render_children(cs.drop_first(), path)
    }
}

/// The full display of a tree: the root's own line always, its
/// descendants when the root is expanded.
pub open spec fn render_model(d: DirInfoView) -> Seq<Seq<char>> {
    seq![dir_label(d.name, d.expanded)] + if d.expanded {
        render_children(files_first(d.content), seq![])
    } else {
        seq![]
    }
}

/// One level-suffix step: the lines of the suffix from `k` are the lines
/// of entry `k` followed by the lines of the suffix from `k + 1`.
pub proof fn lemma_render_children_at(cs: Seq<FsNodeView>, path: Seq<char>, k: int)
    requires
        0 <= k < cs.len(),
    ensures
        render_children(cs.subrange(k, cs.len() as int), path) == entry_lines(
            cs[k],
            path,
            k == cs.len() - 1,
        ) + render_children(cs.subrange(k + 1, cs.len() as int), path),
{
    let suffix = cs.subrange(k, cs.len() as int);
    assert(suffix[0] == cs[k]);
    assert(suffix.drop_first() =~= cs.subrange(k + 1, cs.len() as int));
    assert((suffix.len() == 1) == (k == cs.len() - 1));
}

/// The images of a list of display lines.
pub open spec fn lines_view(l: Seq<String>) -> Seq<Seq<char>> {
    l.map_values(|s: String| s@)
}

pub proof fn lemma_lines_view_push(l: Seq<String>, x: String)
    ensures
        lines_view(l.push(x)) == lines_view(l).push(x@),
{
    assert(lines_view(l.push(x)) =~= lines_view(l).push(x@));
}

fn style_green(t: &str) -> (r: String)
    ensures
        r@ == style_bold_green(t@),
{
    proof {
        reveal_strlit("\u{1b}[1;32m");
        reveal_strlit("\u{1b}[0m");
        assert("\u{1b}[1;32m"@ =~= seq!['\u{1b}', '[', '1', ';', '3', '2', 'm']);
        assert("\u{1b}[0m"@ =~= seq!['\u{1b}', '[', '0', 'm']);
    }
    let mut s = String::from_str("\u{1b}[1;32m");
    s.append(t);
    s.append("\u{1b}[0m");
    s
}

fn style_blue(t: &str) -> (r: String)
    ensures
        r@ == style_bold_blue(t@),
{
    proof {
        reveal_strlit("\u{1b}[1;34m");
        reveal_strlit("\u{1b}[0m");
        assert("\u{1b}[1;34m"@ =~= seq!['\u{1b}', '[', '1', ';', '3', '4', 'm']);
        assert("\u{1b}[0m"@ =~= seq!['\u{1b}', '[', '0', 'm']);
    }
    let mut s = String::from_str("\u{1b}[1;34m");
    s.append(t);
    s.append("\u{1b}[0m");
    s
}

fn dir_label_str(name: &str, expanded: bool) -> (r: String)
    ensures
        r@ == dir_label(name@, expanded),
{
    proof {
        reveal_strlit("[");
        reveal_strlit("]");
        reveal_strlit("\u{2c5}");
        reveal_strlit("\u{2c3}");
        assert("["@ =~= seq!['[']);
        assert("]"@ =~= seq![']']);
        assert("\u{2c5}"@ =~= seq!['\u{2c5}']);
        assert("\u{2c3}"@ =~= seq!['\u{2c3}']);
    }
    let mut s = String::from_str("[");
    let m = if expanded {
        style_green("\u{2c5}")
    } else {
        style_green("\u{2c3}")
    };
    s.append(m.as_str());
    s.append("]");
    let b = style_blue(name);
    s.append(b.as_str());
    s
}

fn connector_str(is_last: bool) -> (r: String)
    ensures
        r@ == if is_last {
            corner_prefix()
        } else {
            joint_prefix()
        },
{
    if is_last {
        proof {
            reveal_strlit(" \u{2514}\u{2014}\u{2014}");
            assert(" \u{2514}\u{2014}\u{2014}"@ =~= seq![' ', '\u{2514}', '\u{2014}', '\u{2014}']);
        }
        String::from_str(" \u{2514}\u{2014}\u{2014}")
    } else {
        proof {
            reveal_strlit(" \u{251c}\u{2014}\u{2014}");
            assert(" \u{251c}\u{2014}\u{2014}"@ =~= seq![' ', '\u{251c}', '\u{2014}', '\u{2014}']);
        }
        String::from_str(" \u{251c}\u{2014}\u{2014}")
    }
}

fn pad_str(is_last: bool) -> (r: String)
    ensures
        r@ == if is_last {
            blank_pad()
        } else {
            vline_pad()
        },
{
    if is_last {
        proof {
            reveal_strlit("    ");
            assert("    "@ =~= seq![' ', ' ', ' ', ' ']);
        }
        String::from_str("    ")
    } else {
        proof {
            reveal_strlit(" \u{2502}  ");
            assert(" \u{2502}  "@ =~= seq![' ', '\u{2502}', ' ', ' ']);
        }
        String::from_str(" \u{2502}  ")
    }
}

/// Renders the whole tree: the root's line, then, when the root is
/// expanded, the lines of its descendants.
pub fn build_tree(dir_info: &DirInfo) -> (r: Vec<String>)
    ensures
        lines_view(r@) == render_model(dir_info@),
{
    let mut tree: Vec<String> = Vec::new();
    let root = dir_label_str(dir_info.name.as_str(), dir_info.expanded);
    proof {
        lemma_lines_view_push(tree@, root);
        assert(lines_view(Seq::<String>::empty()) =~= Seq::<Seq<char>>::empty());
    }
    tree.push(root);
    if dir_info.expanded {
        proof {
            reveal_strlit("");
            assert(""@ =~= Seq::<char>::empty());
        }
        tree_recursion(dir_info, "", &mut tree);
        proof {
            assert(lines_view(tree@) =~= render_model(dir_info@));
        }
    } else {
        proof {
            assert(lines_view(tree@) =~= render_model(dir_info@));
        }
    }
    tree
}

/// Appends to `tree` the lines of every child of `dir_info`, files first,
/// each under the ancestor prefix `path`.
#[verifier::loop_isolation(false)]
fn tree_recursion(dir_info: &DirInfo, path: &str, tree: &mut Vec<String>)
    ensures
        lines_view(final(tree)@) == lines_view(old(tree)@) + render_children(
            files_first(dir_view(*dir_info).content),
            path@,
        ),
    decreases *dir_info, 1int,
{
    let n_files = render_files_pass(dir_info, path, tree);
    render_dirs_pass(dir_info, path, tree, n_files);
    proof {
        let cv = dir_view(*dir_info).content;
        let ff = files_first(cv);
        lemma_partition_len(cv);
        assert(ff.subrange(0, ff.len() as int) =~= ff);
        assert(ff.subrange(ff.len() as int, ff.len() as int) =~= Seq::<FsNodeView>::empty());
        assert(lines_view(tree@) =~= lines_view(old(tree)@) + render_children(ff, path@));
    }
}

proof fn lemma_partition_singleton(x: FsNodeView)
    ensures
        files_of(seq![x]) == if is_file_node(x) {
            seq![x]
        } else {
            Seq::<FsNodeView>::empty()
        },
        dirs_of(seq![x]) == if is_file_node(x) {
            Seq::<FsNodeView>::empty()
        } else {
            seq![x]
        },
{
    assert(seq![x].drop_first() =~= Seq::<FsNodeView>::empty());
    assert(files_of(Seq::<FsNodeView>::empty()) =~= Seq::<FsNodeView>::empty());
    assert(dirs_of(Seq::<FsNodeView>::empty()) =~= Seq::<FsNodeView>::empty());
    if is_file_node(x) {
        assert(files_of(seq![x]) =~= seq![x]);
        assert(dirs_of(seq![x]) =~= Seq::<FsNodeView>::empty());
    } else {
        assert(files_of(seq![x]) =~= Seq::<FsNodeView>::empty());
        assert(dirs_of(seq![x]) =~= seq![x]);
    }
}

/// Facts about the entry at `i`: how the partition of the prefix grows,
/// and where the entry stands in the files-first order.
proof fn lemma_partition_step(cv: Seq<FsNodeView>, i: int)
    requires
        0 <= i < cv.len(),
    ensures
        files_of(cv.subrange(0, i + 1)) == if is_file_node(cv[i]) {
            files_of(cv.subrange(0, i)).push(cv[i])
        } else {
            files_of(cv.subrange(0, i))
        },
        dirs_of(cv.subrange(0, i + 1)) == if is_file_node(cv[i]) {
            dirs_of(cv.subrange(0, i))
        } else {
            dirs_of(cv.subrange(0, i)).push(cv[i])
        },
        is_file_node(cv[i]) ==> files_of(cv) == files_of(cv.subrange(0, i)).push(cv[i]) + files_of(
            cv.subrange(i + 1, cv.len() as int),
        ),
        !is_file_node(cv[i]) ==> dirs_of(cv) == dirs_of(cv.subrange(0, i)).push(cv[i]) + dirs_of(
            cv.subrange(i + 1, cv.len() as int),
        ),
{
    let pre = cv.subrange(0, i);
    let rest = cv.subrange(i, cv.len() as int);
    let rest2 = cv.subrange(i + 1, cv.len() as int);
    assert(pre + rest =~= cv);
    lemma_files_of_concat(pre, rest);
    assert(rest[0] == cv[i]);
    assert(rest.drop_first() =~= rest2);
    lemma_files_of_concat(pre, seq![cv[i]]);
    assert(pre + seq![cv[i]] =~= cv.subrange(0, i + 1));
    lemma_partition_singleton(cv[i]);
    if is_file_node(cv[i]) {
        assert(files_of(cv.subrange(0, i + 1)) =~= files_of(pre).push(cv[i]));
        assert(dirs_of(cv.subrange(0, i + 1)) =~= dirs_of(pre));
        assert(files_of(rest) =~= seq![cv[i]] + files_of(rest2));
        assert(files_of(cv) =~= files_of(pre).push(cv[i]) + files_of(rest2));
    } else {
        assert(files_of(cv.subrange(0, i + 1)) =~= files_of(pre));
        assert(dirs_of(cv.subrange(0, i + 1)) =~= dirs_of(pre).push(cv[i]));
        assert(dirs_of(rest) =~= seq![cv[i]] + dirs_of(rest2));
        assert(dirs_of(cv) =~= dirs_of(pre).push(cv[i]) + dirs_of(rest2));
    }
}

/// First pass of one level: emits the lines of the file children, in tree
/// order, and returns how many there are.
#[verifier::loop_isolation(false)]
fn render_files_pass(dir_info: &DirInfo, path: &str, tree: &mut Vec<String>) -> (n_files: usize)
    ensures
        n_files == files_of(dir_view(*dir_info).content).len(),
        lines_view(final(tree)@) + render_children(
            files_first(dir_view(*dir_info).content).subrange(
                n_files as int,
                files_first(dir_view(*dir_info).content).len() as int,
            ),
            path@,
        ) == lines_view(old(tree)@) + render_children(
            files_first(dir_view(*dir_info).content),
            path@,
        ),
{
    let ghost cv = dir_view(*dir_info).content;
    let ghost ff = files_first(cv);
    let ghost base = lines_view(tree@);
    let total = dir_info.content.len();
    proof {
        crate::fs_node::lemma_nodes_view_len(dir_info.content@);
        lemma_partition_len(cv);
        assert(cv.subrange(0, 0) =~= Seq::<FsNodeView>::empty());
        assert(files_of(Seq::<FsNodeView>::empty()) =~= Seq::<FsNodeView>::empty());
        assert(files_of(cv).subrange(0, 0) =~= Seq::<FsNodeView>::empty());
        assert(ff.subrange(0, ff.len() as int) =~= ff);
    }
    let mut file_idx: usize = 0;
    let mut i: usize = 0;
    while i < total
        invariant
            i <= total,
            file_idx == files_of(cv.subrange(0, i as int)).len(),
            files_of(cv.subrange(0, i as int)) == files_of(cv).subrange(0, file_idx as int),
            base + render_children(ff, path@) == lines_view(tree@) + render_children(
                ff.subrange(file_idx as int, ff.len() as int),
                path@,
            ),
        decreases total - i,
    {
        proof {
            crate::fs_node::lemma_nodes_view_index(dir_info.content@, i as int);
            lemma_partition_step(cv, i as int);
            lemma_partition_len(cv.subrange(0, i as int));
            lemma_partition_len(files_of(cv));
        }
        let e = &dir_info.content[i];
        match e {
            FsNode::File(f) => {
                let is_last = file_idx == total - 1;
                proof {
                    assert(files_of(cv)[file_idx as int] == cv[i as int]);
                    assert(ff[file_idx as int] == cv[i as int]);
                    lemma_render_children_at(ff, path@, file_idx as int);
                }
                let mut line = String::from_str(path);
                let conn = connector_str(is_last);
                line.append(conn.as_str());
                proof {
                    reveal_strlit(" ");
                    assert(" "@ =~= seq![' ']);
                }
                line.append(" ");
                line.append(f.name.as_str());
                proof {
                    lemma_lines_view_push(tree@, line);
                    assert(entry_lines(ff[file_idx as int], path@, file_idx == ff.len() - 1)
                        =~= seq![line@]);
                    assert(lines_view(tree@).push(line@) + render_children(
                        ff.subrange((file_idx + 1) as int, ff.len() as int),
                        path@,
                    ) =~= lines_view(tree@) + render_children(
                        ff.subrange(file_idx as int, ff.len() as int),
                        path@,
                    ));
                }
                tree.push(line);
                file_idx = file_idx + 1;
            },
            FsNode::Directory(_) => {},
        }
        i = i + 1;
    }
    proof {
        assert(cv.subrange(0, total as int) =~= cv);
    }
    file_idx
}

/// Second pass of one level: emits the lines and subtrees of the
/// directory children, in tree order, after `n_files` file lines.
#[verifier::loop_isolation(false)]
fn render_dirs_pass(dir_info: &DirInfo, path: &str, tree: &mut Vec<String>, n_files: usize)
    requires
        n_files == files_of(dir_view(*dir_info).content).len(),
    ensures
        lines_view(final(tree)@) + render_children(
            files_first(dir_view(*dir_info).content).subrange(
                files_first(dir_view(*dir_info).content).len() as int,
                files_first(dir_view(*dir_info).content).len() as int,
            ),
            path@,
        ) == lines_view(old(tree)@) + render_children(
            files_first(dir_view(*dir_info).content).subrange(
                n_files as int,
                files_first(dir_view(*dir_info).content).len() as int,
            ),
            path@,
        ),
    decreases *dir_info, 0int,
{
    let ghost cv = dir_view(*dir_info).content;
    let ghost ff = files_first(cv);
    let ghost base = lines_view(tree@);
    let total = dir_info.content.len();
    proof {
        crate::fs_node::lemma_nodes_view_len(dir_info.content@);
        lemma_partition_len(cv);
        assert(cv.subrange(0, 0) =~= Seq::<FsNodeView>::empty());
        assert(dirs_of(Seq::<FsNodeView>::empty()) =~= Seq::<FsNodeView>::empty());
        assert(dirs_of(cv).subrange(0, 0) =~= Seq::<FsNodeView>::empty());
    }
    let mut dir_idx: usize = 0;
    let mut j: usize = 0;
    while j < total
        invariant
            j <= total,
            dir_idx == dirs_of(cv.subrange(0, j as int)).len(),
            dirs_of(cv.subrange(0, j as int)) == dirs_of(cv).subrange(0, dir_idx as int),
            base + render_children(ff.subrange(n_files as int, ff.len() as int), path@)
                == lines_view(tree@) + render_children(
                ff.subrange((n_files + dir_idx) as int, ff.len() as int),
                path@,
            ),
        decreases total - j,
    {
        proof {
            crate::fs_node::lemma_nodes_view_index(dir_info.content@, j as int);
            lemma_partition_step(cv, j as int);
            lemma_partition_len(cv.subrange(0, j as int));
            lemma_partition_len(dirs_of(cv));
        }
        let e = &dir_info.content[j];
        match e {
            FsNode::Directory(d2) => {
                let pos = n_files + dir_idx;
                let is_last = pos == total - 1;
                proof {
                    assert(dirs_of(cv)[dir_idx as int] == cv[j as int]);
                    assert(ff[pos as int] == cv[j as int]);
                    lemma_render_children_at(ff, path@, pos as int);
                }
                let mut line = String::from_str(path);
                let conn = connector_str(is_last);
                line.append(conn.as_str());
                let label = dir_label_str(d2.name.as_str(), d2.expanded);
                line.append(label.as_str());
                proof {
                    lemma_lines_view_push(tree@, line);
                }
                tree.push(line);
                if d2.expanded {
                    let mut subpath = String::from_str(path);
                    let pad = pad_str(is_last);
                    subpath.append(pad.as_str());
                    tree_recursion(d2, subpath.as_str(), tree);
                    proof {
                        assert(entry_lines(ff[pos as int], path@, pos == ff.len() - 1)
                            =~= seq![line@] + render_children(
                            files_first(dir_view(*d2).content),
                            subpath@,
                        ));
                        assert(base + render_children(
                            ff.subrange(n_files as int, ff.len() as int),
                            path@,
                        ) =~= lines_view(tree@) + render_children(
                            ff.subrange((pos + 1) as int, ff.len() as int),
                            path@,
                        ));
                    }
                } else {
                    proof {
                        assert(entry_lines(ff[pos as int], path@, pos == ff.len() - 1)
                            =~= seq![line@]);
                        assert(base + render_children(
                            ff.subrange(n_files as int, ff.len() as int),
                            path@,
                        ) =~= lines_view(tree@) + render_children(
                            ff.subrange((pos + 1) as int, ff.len() as int),
                            path@,
                        ));
                    }
                }
                dir_idx = dir_idx + 1;
            },
            FsNode::File(_) => {},
        }
        j = j + 1;
    }
    proof {
        assert(cv.subrange(0, total as int) =~= cv);
        assert(dirs_of(cv).subrange(0, dir_idx as int) =~= dirs_of(cv));
    }
}

} // verus!
