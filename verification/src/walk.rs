//! The walk: from an observed snapshot to a mirrored tree, pruning hidden
//! names and ignored names before descending, so that nothing under a
//! pruned directory is ever reported.

use vstd::prelude::*;
use crate::fs_node::{
    DirInfo, DirInfoView, FileInfo, FileInfoView, FsNode, FsNodeView, lemma_nodes_view_push,
    node_view, nodes_view,
};
use crate::vfs::{
    VfsDir, VfsDirView, VfsNode, VfsNodeView, lemma_vnodes_view_index, lemma_vnodes_view_len,
    vnode_name, vnodes_view,
};

verus! {

/// The images of a list of ignore names.
pub open spec fn names_view(l: Seq<String>) -> Seq<Seq<char>> {
    l.map_values(|s: String| s@)
}

/// A name that counts as hidden: it begins with a dot.
pub open spec fn hidden_name(name: Seq<char>) -> bool {
    name.len() > 0 && name[0] == '.'
}

/// Whether `name` occurs in the ignore list.
pub open spec fn name_ignored(ignore: Seq<Seq<char>>, name: Seq<char>) -> bool {
    exists|i: int| 0 <= i < ignore.len() && ignore[i] == name
}

/// Whether an entry of this name is pruned: hidden while hidden entries
/// are ignored, or listed by name.
pub open spec fn pruned(name: Seq<char>, ignore_hidden: bool, ignore: Seq<Seq<char>>) -> bool {
    (ignore_hidden && hidden_name(name)) || name_ignored(ignore, name)
}

/// The tree a walk of `d` yields: every entry that is not pruned becomes
/// a node, a directory entry by walking it in turn.
pub open spec fn walk_dir_model(d: VfsDirView, ignore_hidden: bool, ignore: Seq<Seq<char>>) -> DirInfoView
    decreases d,
{
    DirInfoView {
        name: d.name,
        path: d.path,
        last_modified: Some(d.last_modified),
        expanded: true,
        content: walk_entries_model(d.entries, ignore_hidden, ignore),
        fields: None,
    }
}

/// The child nodes a walk yields for a list of observed entries.
pub open spec fn walk_entries_model(
    es: Seq<VfsNodeView>,
    ignore_hidden: bool,
    ignore: Seq<Seq<char>>,
) -> Seq<FsNodeView>
    decreases es,
{
    if es.len() == 0 {
        seq![]
    } else {
        let rest = walk_entries_model(es.drop_last(), ignore_hidden, ignore);
        if pruned(vnode_name(es.last()), ignore_hidden, ignore) {
            rest
        } else {
            rest.push(walk_node_model(es.last(), ignore_hidden, ignore))
        }
    }
}

/// The node a walk yields for one observed entry that is not pruned.
pub open spec fn walk_node_model(e: VfsNodeView, ignore_hidden: bool, ignore: Seq<Seq<char>>) -> FsNodeView
    decreases e,
{
    match e {
        VfsNodeView::Directory(d) => FsNodeView::Directory(
            walk_dir_model(d, ignore_hidden, ignore),
        ),
        VfsNodeView::File(f) => FsNodeView::File(
            FileInfoView {
                name: f.name,
                path: f.path,
                last_modified: Some(f.last_modified),
                fields: None,
            },
        ),
    }
}

/// Walking an empty directory yields a tree whose root has no children.
pub proof fn lemma_walk_empty_dir(v: VfsDirView, ignore_hidden: bool, ignore: Seq<Seq<char>>)
    requires
        v.entries.len() == 0,
    ensures
        walk_dir_model(v, ignore_hidden, ignore).content.len() == 0,
{
}

proof fn lemma_prune_entry(es: Seq<VfsNodeView>, ignore_hidden: bool, ignore: Seq<Seq<char>>, i: int)
    requires
        0 <= i < es.len(),
        pruned(vnode_name(es[i]), ignore_hidden, ignore),
    ensures
        walk_entries_model(es, ignore_hidden, ignore) == walk_entries_model(
            es.remove(i),
            ignore_hidden,
            ignore,
        ),
    decreases es,
{
    if i == es.len() - 1 {
        assert(es.remove(i) =~= es.drop_last());
    } else {
        lemma_prune_entry(es.drop_last(), ignore_hidden, ignore, i);
        assert(es.remove(i).drop_last() =~= es.drop_last().remove(i));
        assert(es.remove(i).last() == es.last());
    }
}

/// Pruning is recursive: a walk of a directory holding a pruned entry is
/// exactly the walk of the snapshot without that entry and its whole
/// subtree, whatever that subtree holds — none of its descendants is
/// visited or reported.
pub proof fn lemma_prune_recursive(
    v: VfsDirView,
    ignore_hidden: bool,
    ignore: Seq<Seq<char>>,
    i: int,
)
    requires
        0 <= i < v.entries.len(),
        pruned(vnode_name(v.entries[i]), ignore_hidden, ignore),
    ensures
        walk_dir_model(v, ignore_hidden, ignore) == walk_dir_model(
            (VfsDirView { entries: v.entries.remove(i), ..v }),
            ignore_hidden,
            ignore,
        ),
{
    lemma_prune_entry(v.entries, ignore_hidden, ignore, i);
}

proof fn lemma_walk_node_wf(e: VfsNodeView, ignore_hidden: bool, ignore: Seq<Seq<char>>)
    requires
        crate::vfs::vnode_wf(e),
    ensures
        crate::fs_node::node_wf(walk_node_model(e, ignore_hidden, ignore)),
        crate::fs_node::node_path(walk_node_model(e, ignore_hidden, ignore)) == crate::vfs::vnode_path(e),
    decreases e,
{
    match e {
        VfsNodeView::Directory(d) => {
            lemma_walk_dir_wf(d, ignore_hidden, ignore);
        },
        VfsNodeView::File(_) => {},
    }
}

proof fn lemma_walk_entries_wf(es: Seq<VfsNodeView>, ignore_hidden: bool, ignore: Seq<Seq<char>>)
    requires
        crate::vfs::ventries_wf(es),
        forall|i: int, j: int|
            0 <= i < j < es.len() ==> crate::vfs::vnode_path(es[i]) != crate::vfs::vnode_path(
                es[j],
            ),
    ensures
        crate::fs_node::nodes_wf(walk_entries_model(es, ignore_hidden, ignore)),
        forall|k: int|
            0 <= k < walk_entries_model(es, ignore_hidden, ignore).len() ==> exists|m: int|
                0 <= m < es.len() && crate::fs_node::node_path(
                    #[trigger] walk_entries_model(es, ignore_hidden, ignore)[k],
                ) == crate::vfs::vnode_path(es[m]),
        forall|i: int, j: int|
            0 <= i < j < walk_entries_model(es, ignore_hidden, ignore).len()
                ==> crate::fs_node::node_path(walk_entries_model(es, ignore_hidden, ignore)[i])
                != crate::fs_node::node_path(walk_entries_model(es, ignore_hidden, ignore)[j]),
    decreases es,
{
    if es.len() == 0 {
    } else {
        let es2 = es.drop_last();
        assert(forall|i: int| 0 <= i < es2.len() ==> es2[i] == es[i]);
        lemma_walk_entries_wf(es2, ignore_hidden, ignore);
        let w = walk_entries_model(es, ignore_hidden, ignore);
        let w2 = walk_entries_model(es2, ignore_hidden, ignore);
        if pruned(vnode_name(es.last()), ignore_hidden, ignore) {
            assert(w == w2);
            assert forall|k: int| 0 <= k < w.len() implies exists|m: int|
                0 <= m < es.len() && crate::fs_node::node_path(#[trigger] w[k])
                    == crate::vfs::vnode_path(es[m]) by {
                let m2 = choose|m2: int|
                    0 <= m2 < es2.len() && crate::fs_node::node_path(w2[k])
                        == crate::vfs::vnode_path(es2[m2]);
                assert(0 <= m2 < es.len() && crate::fs_node::node_path(w[k])
                    == crate::vfs::vnode_path(es[m2]));
            }
        } else {
            lemma_walk_node_wf(es.last(), ignore_hidden, ignore);
            let nd = walk_node_model(es.last(), ignore_hidden, ignore);
            assert(w == w2.push(nd));
            assert(w.drop_last() =~= w2);
            assert(crate::fs_node::nodes_wf(w));
            assert forall|k: int| 0 <= k < w.len() implies exists|m: int|
                0 <= m < es.len() && crate::fs_node::node_path(#[trigger] w[k])
                    == crate::vfs::vnode_path(es[m]) by {
                if k < w2.len() {
                    let m2 = choose|m2: int|
                        0 <= m2 < es2.len() && crate::fs_node::node_path(w2[k])
                            == crate::vfs::vnode_path(es2[m2]);
                    assert(0 <= m2 < es.len() && crate::fs_node::node_path(w[k])
                        == crate::vfs::vnode_path(es[m2]));
                } else {
                    assert(w[k] == nd);
                    assert(crate::fs_node::node_path(w[k]) == crate::vfs::vnode_path(
                        es[es.len() - 1],
                    ));
                }
            }
            assert forall|i: int, j: int| 0 <= i < j < w.len() implies crate::fs_node::node_path(
                w[i],
            ) != crate::fs_node::node_path(w[j]) by {
                if j < w2.len() {
                } else {
                    let m2 = choose|m2: int|
                        0 <= m2 < es2.len() && crate::fs_node::node_path(w2[i])
                            == crate::vfs::vnode_path(es2[m2]);
                    assert(crate::vfs::vnode_path(es[m2]) != crate::vfs::vnode_path(
                        es[es.len() - 1],
                    ));
                    assert(crate::fs_node::node_path(w[j]) == crate::vfs::vnode_path(
                        es[es.len() - 1],
                    ));
                }
            }
        }
    }
}

/// The walk establishes the tree's invariants: on a well-formed snapshot
/// — names the final components of their paths, no two sibling entries
/// sharing a path, as a live filesystem guarantees — the mirrored tree is
/// well formed in the same sense, at every depth.
pub proof fn lemma_walk_dir_wf(v: VfsDirView, ignore_hidden: bool, ignore: Seq<Seq<char>>)
    requires
        crate::vfs::vdir_wf(v),
    ensures
        crate::fs_node::dir_wf(walk_dir_model(v, ignore_hidden, ignore)),
    decreases v,
{
    lemma_walk_entries_wf(v.entries, ignore_hidden, ignore);
}

/// Whether `name` denotes a hidden entry.
pub fn is_hidden(name: &str) -> (r: bool)
    ensures
        r == hidden_name(name@),
{
    if name.unicode_len() == 0 {
        false
    } else {
        name.get_char(0) == '.'
    }
}

/// Whether `name` occurs in `list`.
pub fn list_contains(list: &Vec<String>, name: &str) -> (r: bool)
    ensures
        r == name_ignored(names_view(list@), name@),
{
    let mut i: usize = 0;
    while i < list.len()
        invariant
            i <= list@.len(),
            forall|j: int| 0 <= j < i ==> names_view(list@)[j] != name@,
        decreases list@.len() - i,
    {
        if crate::paths::str_eq(list[i].as_str(), name) {
            proof {
                assert(names_view(list@)[i as int] == name@);
            }
            return true;
        }
        i = i + 1;
    }
    false
}

/// Whether an entry of this name is pruned under the given rules.
pub fn entry_pruned(name: &str, ignore_hidden: bool, ignore_list: &Vec<String>) -> (r: bool)
    ensures
        r == pruned(name@, ignore_hidden, names_view(ignore_list@)),
{
    (ignore_hidden && is_hidden(name)) || list_contains(ignore_list, name)
}

/// Sequential walk strategy: depth first, one call stack, every entry of
/// the snapshot visited in order unless its name is pruned.
pub fn walk_seq(v: &VfsDir, ignore_hidden: bool, ignore_list: &Vec<String>) -> (r: DirInfo)
    ensures
        r@ == walk_dir_model(v@, ignore_hidden, names_view(ignore_list@)),
    decreases *v,
{
    let ghost ig = names_view(ignore_list@);
    let mut content: Vec<FsNode> = Vec::new();
    let mut i: usize = 0;
    while i < v.entries.len()
        invariant
            i <= v.entries.len(),
            nodes_view(content@) == walk_entries_model(
                vnodes_view(v.entries@).subrange(0, i as int),
                ignore_hidden,
                ig,
            ),
            ig == names_view(ignore_list@),
        decreases v.entries.len() - i,
    {
        proof {
            lemma_vnodes_view_len(v.entries@);
            lemma_vnodes_view_index(v.entries@, i as int);
            let evs = vnodes_view(v.entries@);
            assert(evs.subrange(0, i + 1 as int).drop_last() =~= evs.subrange(0, i as int));
            assert(evs.subrange(0, i + 1 as int).last() == evs[i as int]);
        }
        let e = &v.entries[i];
        let hidden_now = match e {
            VfsNode::Directory(d) => entry_pruned(d.name.as_str(), ignore_hidden, ignore_list),
            VfsNode::File(f) => entry_pruned(f.name.as_str(), ignore_hidden, ignore_list),
        };
        if !hidden_now {
            let child = match e {
                VfsNode::Directory(d) => FsNode::Directory(walk_seq(d, ignore_hidden, ignore_list)),
                VfsNode::File(f) => FsNode::File(
                    FileInfo {
                        name: f.name.clone(),
                        path: f.path.clone(),
                        last_modified: Some(f.last_modified),
                        fields: None,
                    },
                ),
            };
            proof {
                lemma_nodes_view_push(content@, child);
                let evs = vnodes_view(v.entries@);
                assert(node_view(child) == walk_node_model(evs[i as int], ignore_hidden, ig));
                assert(nodes_view(content@.push(child)) == walk_entries_model(
                    evs.subrange(0, (i + 1) as int),
                    ignore_hidden,
                    ig,
                ));
            }
            content.push(child);
        } else {
            proof {
                let evs = vnodes_view(v.entries@);
                assert(pruned(vnode_name(evs[i as int]), ignore_hidden, ig));
                assert(nodes_view(content@) == walk_entries_model(
                    evs.subrange(0, (i + 1) as int),
                    ignore_hidden,
                    ig,
                ));
            }
        }
        i = i + 1;
    }
    proof {
        lemma_vnodes_view_len(v.entries@);
        assert(vnodes_view(v.entries@).subrange(0, v.entries@.len() as int) =~= vnodes_view(
            v.entries@,
        ));
    }
    DirInfo {
        name: v.name.clone(),
        path: v.path.clone(),
        last_modified: Some(v.last_modified),
        expanded: true,
        content,
        fields: None,
    }
}

/// Node count of one observed entry's subtree, the entry included.
pub open spec fn vnode_size(n: VfsNodeView) -> nat
    decreases n,
{
    match n {
        VfsNodeView::File(_) => 1,
        VfsNodeView::Directory(d) => 1 + ventries_size(d.entries),
    }
}

/// Node count of the subtrees of a list of observed entries.
pub open spec fn ventries_size(s: Seq<VfsNodeView>) -> nat
    decreases s,
{
    if s.len() == 0 {
        0
    } else {
        vnode_size(s[0]) + ventries_size(s.drop_first())
    }
}

proof fn lemma_ventries_step(s: Seq<VfsNodeView>, i: int)
    requires
        0 <= i < s.len(),
    ensures
        ventries_size(s.subrange(i, s.len() as int)) == vnode_size(s[i]) + ventries_size(
            s.subrange(i + 1, s.len() as int),
        ),
{
    let sfx = s.subrange(i, s.len() as int);
    assert(sfx[0] == s[i]);
    assert(sfx.drop_first() =~= s.subrange(i + 1, s.len() as int));
}

/// One suspended level of the iterative walk: the directory being read,
/// the index of the next entry to read, and the children built so far.
struct WalkFrame {
    dir: VfsDir,
    next: usize,
    acc: Vec<FsNode>,
}

spec fn acc_cover(fr: WalkFrame, k: int, ignore_hidden: bool, ig: Seq<Seq<char>>) -> bool {
    nodes_view(fr.acc@) == walk_entries_model(
        vnodes_view(fr.dir.entries@).subrange(0, k),
        ignore_hidden,
        ig,
    )
}

spec fn top_ok(fr: WalkFrame, ignore_hidden: bool, ig: Seq<Seq<char>>) -> bool {
    fr.next <= fr.dir.entries@.len() && acc_cover(fr, fr.next as int, ignore_hidden, ig)
}

spec fn inner_ok(p: WalkFrame, c: WalkFrame, ignore_hidden: bool, ig: Seq<Seq<char>>) -> bool {
    &&& 1 <= p.next <= p.dir.entries@.len()
    &&& acc_cover(p, p.next - 1, ignore_hidden, ig)
    &&& match p.dir.entries@[p.next - 1] {
        VfsNode::Directory(d) => crate::vfs::vdir_view(c.dir) == crate::vfs::vdir_view(d)
            && !pruned(d.name@, ignore_hidden, ig),
        VfsNode::File(_) => false,
    }
}

spec fn rest_size(fr: WalkFrame) -> nat {
    ventries_size(
        vnodes_view(fr.dir.entries@).subrange(
            fr.next as int,
            vnodes_view(fr.dir.entries@).len() as int,
        ),
    )
}

spec fn frames_rest(st: Seq<WalkFrame>) -> nat
    decreases st,
{
    if st.len() == 0 {
        0
    } else {
        frames_rest(st.drop_last()) + rest_size(st.last())
    }
}

proof fn lemma_frames_rest_push(st: Seq<WalkFrame>, fr: WalkFrame)
    ensures
        frames_rest(st.push(fr)) == frames_rest(st) + rest_size(fr),
{
    assert(st.push(fr).drop_last() =~= st);
}

/// Iterative walk strategy: one pass with an explicit pending stack in
/// place of the call stack, the same prune-before-descend rule, and the
/// same tree as the sequential strategy.
#[verifier::loop_isolation(false)]
pub fn walk_iter(v: &VfsDir, ignore_hidden: bool, ignore_list: &Vec<String>) -> (r: DirInfo)
    ensures
        r@ == walk_dir_model(v@, ignore_hidden, names_view(ignore_list@)),
{
    let ghost ig = names_view(ignore_list@);
    let mut stack: Vec<WalkFrame> = Vec::new();
    let root = crate::vfs::clone_vdir(v);
    proof {
        assert(vnodes_view(root.entries@).subrange(0, 0) =~= Seq::<VfsNodeView>::empty());
        assert(nodes_view(Seq::<FsNode>::empty()) =~= Seq::<FsNodeView>::empty());
    }
    stack.push(WalkFrame { dir: root, next: 0, acc: Vec::new() });
    loop
        invariant
            stack@.len() >= 1,
            crate::vfs::vdir_view(stack@[0].dir) == v@,
            top_ok(stack@.last(), ignore_hidden, ig),
            forall|j: int|
                0 <= j < stack@.len() - 1 ==> inner_ok(
                    #[trigger] stack@[j],
                    stack@[j + 1],
                    ignore_hidden,
                    ig,
                ),
        decreases frames_rest(stack@), stack@.len(),
    {
        let ghost st0 = stack@;
        let mut fr = stack.pop().unwrap();
        let ghost st_rest = stack@;
        proof {
            assert(st0.drop_last() =~= st_rest);
            assert(st0.last() == fr);
        }
        let ghost evs = vnodes_view(fr.dir.entries@);
        proof {
            lemma_vnodes_view_len(fr.dir.entries@);
        }
        if fr.next < fr.dir.entries.len() {
            let idx = fr.next;
            proof {
                lemma_vnodes_view_index(fr.dir.entries@, idx as int);
                lemma_ventries_step(evs, idx as int);
                assert(evs.subrange(idx + 1 as int, evs.len() as int)
                    == vnodes_view(fr.dir.entries@).subrange(
                    (idx + 1) as int,
                    vnodes_view(fr.dir.entries@).len() as int,
                ));
                assert(evs.subrange(0, idx + 1 as int).drop_last() =~= evs.subrange(0, idx as int));
                assert(evs.subrange(0, idx + 1 as int).last() == evs[idx as int]);
            }
            let is_pruned = match &fr.dir.entries[idx] {
                VfsNode::Directory(d) => entry_pruned(d.name.as_str(), ignore_hidden, ignore_list),
                VfsNode::File(f) => entry_pruned(f.name.as_str(), ignore_hidden, ignore_list),
            };
            if is_pruned {
                fr.next = idx + 1;
                proof {
                    lemma_frames_rest_push(st_rest, fr);
                    assert(top_ok(fr, ignore_hidden, ig));
                    assert(frames_rest(st_rest.push(fr)) < frames_rest(st0)) by {
                        assert(frames_rest(st0) == frames_rest(st_rest) + rest_size(st0.last()));
                    }
                }
                stack.push(fr);
            } else {
                match &fr.dir.entries[idx] {
                    VfsNode::File(f) => {
                        let child = FsNode::File(
                            FileInfo {
                                name: f.name.clone(),
                                path: f.path.clone(),
                                last_modified: Some(f.last_modified),
                                fields: None,
                            },
                        );
                        proof {
                            lemma_nodes_view_push(fr.acc@, child);
                        }
                        fr.acc.push(child);
                        fr.next = idx + 1;
                        proof {
                            lemma_frames_rest_push(st_rest, fr);
                            assert(node_view(child) == walk_node_model(
                                evs[idx as int],
                                ignore_hidden,
                                ig,
                            ));
                            assert(!pruned(vnode_name(evs[idx as int]), ignore_hidden, ig));
                            assert(walk_entries_model(
                                evs.subrange(0, (idx + 1) as int),
                                ignore_hidden,
                                ig,
                            ) == walk_entries_model(
                                evs.subrange(0, idx as int),
                                ignore_hidden,
                                ig,
                            ).push(walk_node_model(evs[idx as int], ignore_hidden, ig)));
                            assert(top_ok(fr, ignore_hidden, ig));
                            assert(frames_rest(st_rest.push(fr)) < frames_rest(st0)) by {
                                assert(frames_rest(st0) == frames_rest(st_rest) + rest_size(
                                    st0.last(),
                                ));
                            }
                        }
                        stack.push(fr);
                    },
                    VfsNode::Directory(d2) => {
                        let child_dir = crate::vfs::clone_vdir(d2);
                        fr.next = idx + 1;
                        let child_frame = WalkFrame { dir: child_dir, next: 0, acc: Vec::new() };
                        proof {
                            assert(vnodes_view(child_frame.dir.entries@).subrange(0, 0)
                                =~= Seq::<VfsNodeView>::empty());
                            assert(nodes_view(Seq::<FsNode>::empty()) =~= Seq::<
                                FsNodeView,
                            >::empty());
                            assert(inner_ok(fr, child_frame, ignore_hidden, ig));
                            assert(top_ok(child_frame, ignore_hidden, ig));
                            lemma_frames_rest_push(st_rest, fr);
                            lemma_frames_rest_push(st_rest.push(fr), child_frame);
                            assert(rest_size(child_frame) == ventries_size(
                                crate::vfs::vdir_view(*d2).entries,
                            )) by {
                                assert(vnodes_view(child_frame.dir.entries@).subrange(
                                    0,
                                    vnodes_view(child_frame.dir.entries@).len() as int,
                                ) =~= vnodes_view(child_frame.dir.entries@));
                            }
                            assert(frames_rest(st_rest.push(fr).push(child_frame)) < frames_rest(
                                st0,
                            )) by {
                                assert(frames_rest(st0) == frames_rest(st_rest) + rest_size(
                                    st0.last(),
                                ));
                                assert(vnode_size(evs[idx as int]) == 1 + ventries_size(
                                    crate::vfs::vdir_view(*d2).entries,
                                ));
                            }
                        }
                        stack.push(fr);
                        stack.push(child_frame);
                    },
                }
            }
        } else {
            proof {
                assert(fr.next == fr.dir.entries@.len());
                assert(evs.subrange(fr.next as int, evs.len() as int) =~= Seq::<
                    VfsNodeView,
                >::empty());
                assert(ventries_size(Seq::<VfsNodeView>::empty()) == 0);
                assert(evs.subrange(0, fr.next as int) =~= evs);
            }
            let done = DirInfo {
                name: fr.dir.name.clone(),
                path: fr.dir.path.clone(),
                last_modified: Some(fr.dir.last_modified),
                expanded: true,
                content: fr.acc,
            fields: None,
            };
            proof {
                assert(done@ == walk_dir_model(
                    crate::vfs::vdir_view(fr.dir),
                    ignore_hidden,
                    ig,
                ));
            }
            if stack.len() == 0 {
                proof {
                    assert(st0.len() == 1);
                    assert(st0[0] == fr);
                }
                return done;
            }
            let mut p = stack.pop().unwrap();
            let ghost st_rest2 = stack@;
            proof {
                assert(st_rest.drop_last() =~= st_rest2);
                assert(st_rest.last() == p);
                assert(inner_ok(p, fr, ignore_hidden, ig));
                let pevs = vnodes_view(p.dir.entries@);
                lemma_vnodes_view_len(p.dir.entries@);
                lemma_vnodes_view_index(p.dir.entries@, p.next - 1);
                assert(pevs.subrange(0, p.next as int).drop_last() =~= pevs.subrange(
                    0,
                    p.next - 1,
                ));
                assert(pevs.subrange(0, p.next as int).last() == pevs[p.next - 1]);
                lemma_nodes_view_push(p.acc@, FsNode::Directory(done));
            }
            let child_node = FsNode::Directory(done);
            p.acc.push(child_node);
            proof {
                let pevs = vnodes_view(p.dir.entries@);
                assert(node_view(child_node) == walk_node_model(
                    pevs[p.next - 1],
                    ignore_hidden,
                    ig,
                ));
                assert(!pruned(vnode_name(pevs[p.next - 1]), ignore_hidden, ig));
                assert(walk_entries_model(pevs.subrange(0, p.next as int), ignore_hidden, ig)
                    == walk_entries_model(pevs.subrange(0, p.next - 1), ignore_hidden, ig).push(
                    walk_node_model(pevs[p.next - 1], ignore_hidden, ig),
                ));
                assert(top_ok(p, ignore_hidden, ig));
                lemma_frames_rest_push(st_rest2, p);
                assert(frames_rest(st_rest2.push(p)) <= frames_rest(st0)) by {
                    assert(frames_rest(st0) == frames_rest(st_rest) + rest_size(fr));
                    assert(frames_rest(st_rest) == frames_rest(st_rest2) + rest_size(
                        st_rest.last(),
                    ));
                    assert(rest_size(fr) == 0) by {
                        assert(evs.subrange(fr.next as int, evs.len() as int)
                            =~= Seq::<VfsNodeView>::empty());
                    }
                    assert(rest_size(p) == rest_size(st_rest.last()));
                }
            }
            stack.push(p);
        }
    }
}

/// Image of a tree as the set of (absolute path, is-directory) pairs of
/// its nodes.
pub open spec fn tree_pairs(d: DirInfoView) -> Set<(Seq<char>, bool)>
    decreases d,
{
    set![(d.path, true)].union(forest_pairs(d.content))
}

pub open spec fn forest_pairs(s: Seq<FsNodeView>) -> Set<(Seq<char>, bool)>
    decreases s,
{
    if s.len() == 0 {
        Set::empty()
    } else {
        forest_pairs(s.drop_last()).union(node_pairs(s.last()))
    }
}

pub open spec fn node_pairs(n: FsNodeView) -> Set<(Seq<char>, bool)>
    decreases n,
{
    match n {
        FsNodeView::Directory(d) => tree_pairs(d),
        FsNodeView::File(f) => set![(f.path, false)],
    }
}

proof fn lemma_forest_pairs_remove(s: Seq<FsNodeView>, j: int)
    requires
        0 <= j < s.len(),
    ensures
        forest_pairs(s) == forest_pairs(s.remove(j)).union(node_pairs(s[j])),
    decreases s.len(),
{
    if j == s.len() - 1 {
        assert(s.remove(j) =~= s.drop_last());
    } else {
        lemma_forest_pairs_remove(s.drop_last(), j);
        assert(s.remove(j).drop_last() =~= s.drop_last().remove(j));
        assert(s.remove(j).last() == s.last());
        assert(s.drop_last()[j] == s[j]);
        assert(forest_pairs(s) =~= forest_pairs(s.remove(j)).union(node_pairs(s[j])));
    }
}

/// Child order at a level does not change what a tree reports: two child
/// lists holding the same nodes, in any order, carry the same
/// (path, is-directory) pairs.  This is exactly the freedom a concurrent
/// strategy has when it assembles a directory's children as subtasks
/// complete in any interleaving.
pub proof fn lemma_forest_pairs_any_order(s1: Seq<FsNodeView>, s2: Seq<FsNodeView>)
    requires
        s1.to_multiset() == s2.to_multiset(),
    ensures
        forest_pairs(s1) == forest_pairs(s2),
    decreases s1.len(),
{
    broadcast use vstd::seq_lib::group_to_multiset_ensures;

    if s1.len() == 0 {
        assert(s1.to_multiset().len() == 0);
        assert(s2.len() == 0);
    } else {
        let x = s1.last();
        assert(s1.contains(x)) by {
            assert(s1[s1.len() - 1] == x);
        }
        assert(s1.to_multiset().count(x) > 0);
        assert(s2.contains(x));
        let j = choose|j: int| 0 <= j < s2.len() && s2[j] == x;
        assert(s1.drop_last() =~= s1.remove(s1.len() - 1));
        assert(s1.drop_last().to_multiset() == s2.remove(j).to_multiset()) by {
            assert(s1.remove(s1.len() - 1).to_multiset() =~= s1.to_multiset().remove(x));
            assert(s2.remove(j).to_multiset() =~= s2.to_multiset().remove(x));
        }
        lemma_forest_pairs_any_order(s1.drop_last(), s2.remove(j));
        lemma_forest_pairs_remove(s2, j);
        assert(forest_pairs(s1) =~= forest_pairs(s2));
    }
}

/// Two trees that agree on their path and hold the same children, in any
/// order, report the same (path, is-directory) pairs.
pub proof fn lemma_tree_pairs_any_child_order(d1: DirInfoView, d2: DirInfoView)
    requires
        d1.path == d2.path,
        d1.content.to_multiset() == d2.content.to_multiset(),
    ensures
        tree_pairs(d1) == tree_pairs(d2),
{
    lemma_forest_pairs_any_order(d1.content, d2.content);
}

/// Walk strategies agree: two walks of the same snapshot under the same
/// rules yield trees with identical (path, is-directory) pair sets —
/// indeed, because every strategy here meets `walk_dir_model` exactly,
/// identical trees, child order included.
pub proof fn lemma_walk_strategies_agree(
    t1: DirInfoView,
    t2: DirInfoView,
    v: VfsDirView,
    ignore_hidden: bool,
    ignore: Seq<Seq<char>>,
)
    requires
        t1 == walk_dir_model(v, ignore_hidden, ignore),
        t2 == walk_dir_model(v, ignore_hidden, ignore),
    ensures
        tree_pairs(t1) == tree_pairs(t2),
        t1 == t2,
{
}

} // verus!
