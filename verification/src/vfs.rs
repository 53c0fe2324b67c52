//! A snapshot of one filesystem subtree, read in full by a caller and
//! handed to the walker as a plain value.  Every entry carries its bare
//! name, absolute path and modification time; a directory carries the
//! entries that were found in it, in discovery order.

use vstd::prelude::*;

verus! {

/// One observed entry of a subtree.
#[derive(Debug, PartialEq)]
pub enum VfsNode {
    Directory(VfsDir),
    File(VfsFile),
}

/// An observed directory and everything under it.
#[derive(Debug, PartialEq)]
pub struct VfsDir {
    pub name: String,
    pub path: String,
    pub last_modified: u64,
    pub entries: Vec<VfsNode>,
}

/// An observed file.
#[derive(Debug, PartialEq)]
pub struct VfsFile {
    pub name: String,
    pub path: String,
    pub last_modified: u64,
}

/// Mathematical image of an observed entry.
pub enum VfsNodeView {
    Directory(VfsDirView),
    File(VfsFileView),
}

/// Mathematical image of an observed directory.
pub struct VfsDirView {
    pub name: Seq<char>,
    pub path: Seq<char>,
    pub last_modified: u64,
    pub entries: Seq<VfsNodeView>,
}

/// Mathematical image of an observed file.
pub struct VfsFileView {
    pub name: Seq<char>,
    pub path: Seq<char>,
    pub last_modified: u64,
}

pub open spec fn vfile_view(f: VfsFile) -> VfsFileView {
    VfsFileView { name: f.name@, path: f.path@, last_modified: f.last_modified }
}

pub open spec fn vnode_view(n: VfsNode) -> VfsNodeView
    decreases n,
{
    match n {
        VfsNode::Directory(d) => VfsNodeView::Directory(vdir_view(d)),
        VfsNode::File(f) => VfsNodeView::File(vfile_view(f)),
    }
}

pub open spec fn vdir_view(d: VfsDir) -> VfsDirView
    decreases d,
{
    VfsDirView {
        name: d.name@,
        path: d.path@,
        last_modified: d.last_modified,
        entries: vnodes_view(d.entries@),
    }
}

pub open spec fn vnodes_view(s: Seq<VfsNode>) -> Seq<VfsNodeView>
    decreases s,
{
    if s.len() == 0 {
        seq![]
    } else {
        vnodes_view(s.drop_last()).push(vnode_view(s.last()))
    }
}

impl View for VfsNode {
    type V = VfsNodeView;

    open spec fn view(&self) -> VfsNodeView {
        vnode_view(*self)
    }
}

impl View for VfsDir {
    type V = VfsDirView;

    open spec fn view(&self) -> VfsDirView {
        vdir_view(*self)
    }
}

impl View for VfsFile {
    type V = VfsFileView;

    open spec fn view(&self) -> VfsFileView {
        vfile_view(*self)
    }
}

pub broadcast proof fn lemma_vnodes_view_len(s: Seq<VfsNode>)
    ensures
        #[trigger] vnodes_view(s).len() == s.len(),
    decreases s,
{
    if s.len() > 0 {
        lemma_vnodes_view_len(s.drop_last());
    }
}

pub broadcast proof fn lemma_vnodes_view_index(s: Seq<VfsNode>, i: int)
    requires
        0 <= i < s.len(),
    ensures
        #[trigger] vnodes_view(s)[i] == vnode_view(s[i]),
    decreases s,
{
    lemma_vnodes_view_len(s.drop_last());
    if i < s.len() - 1 {
        lemma_vnodes_view_index(s.drop_last(), i);
    }
}

/// The bare name of an observed entry.
pub open spec fn vnode_name(n: VfsNodeView) -> Seq<char> {
    match n {
        VfsNodeView::Directory(d) => d.name,
        VfsNodeView::File(f) => f.name,
    }
}

/// The absolute path of an observed entry.
pub open spec fn vnode_path(n: VfsNodeView) -> Seq<char> {
    match n {
        VfsNodeView::Directory(d) => d.path,
        VfsNodeView::File(f) => f.path,
    }
}

/// Well-formedness of an observed file: its name is the final component
/// of its absolute path.
pub open spec fn vfile_wf(f: VfsFileView) -> bool {
    crate::paths::file_name_spec(f.path) == Some(f.name)
}

/// Well-formedness of an observed directory, as a live filesystem
/// guarantees it: the name is the final component of the path, every
/// entry is well formed, and no two entries share an absolute path.
pub open spec fn vdir_wf(d: VfsDirView) -> bool
    decreases d,
{
    &&& crate::paths::file_name_spec(d.path) == Some(d.name)
    &&& ventries_wf(d.entries)
    &&& forall|i: int, j: int|
        0 <= i < j < d.entries.len() ==> vnode_path(d.entries[i]) != vnode_path(d.entries[j])
}

pub open spec fn ventries_wf(s: Seq<VfsNodeView>) -> bool
    decreases s,
{
    if s.len() == 0 {
        true
    } else {
        ventries_wf(s.drop_last()) && vnode_wf(s.last())
    }
}

pub open spec fn vnode_wf(n: VfsNodeView) -> bool
    decreases n,
{
    match n {
        VfsNodeView::Directory(d) => vdir_wf(d),
        VfsNodeView::File(f) => vfile_wf(f),
    }
}

impl VfsDir {
    /// Builds an observed directory from its parts.
    pub fn new(name: String, path: String, last_modified: u64, entries: Vec<VfsNode>) -> (r: Self)
        ensures
            r@ == (VfsDirView {
                name: name@,
                path: path@,
                last_modified,
                entries: vnodes_view(entries@),
            }),
    {
        VfsDir { name, path, last_modified, entries }
    }
}

impl VfsFile {
    /// Builds an observed file from its parts.
    pub fn new(name: String, path: String, last_modified: u64) -> (r: Self)
        ensures
            r@ == (VfsFileView { name: name@, path: path@, last_modified }),
    {
        VfsFile { name, path, last_modified }
    }
}

/// Deep copy of an observed entry.
pub fn clone_vnode(n: &VfsNode) -> (r: VfsNode)
    ensures
        r@ == n@,
    decreases *n,
{
    match n {
        VfsNode::Directory(d) => VfsNode::Directory(clone_vdir(d)),
        VfsNode::File(f) => VfsNode::File(
            VfsFile { name: f.name.clone(), path: f.path.clone(), last_modified: f.last_modified },
        ),
    }
}

/// Deep copy of an observed directory.
pub fn clone_vdir(d: &VfsDir) -> (r: VfsDir)
    ensures
        r@ == d@,
    decreases *d,
{
    let mut entries: Vec<VfsNode> = Vec::new();
    let mut i: usize = 0;
    while i < d.entries.len()
        invariant
            i <= d.entries.len(),
            vnodes_view(entries@) == vnodes_view(d.entries@.subrange(0, i as int)),
        decreases d.entries.len() - i,
    {
        let c = clone_vnode(&d.entries[i]);
        proof {
            lemma_vnodes_view_index(d.entries@, i as int);
            assert(vnodes_view(entries@.push(c)) == vnodes_view(entries@).push(vnode_view(c))) by {
                assert(entries@.push(c).drop_last() =~= entries@);
            }
            assert(d.entries@.subrange(0, i + 1 as int).drop_last() =~= d.entries@.subrange(
                0,
                i as int,
            ));
            assert(d.entries@.subrange(0, i + 1 as int).last() == d.entries@[i as int]);
        }
        entries.push(c);
        i = i + 1;
    }
    proof {
        assert(d.entries@.subrange(0, d.entries@.len() as int) =~= d.entries@);
    }
    VfsDir {
        name: d.name.clone(),
        path: d.path.clone(),
        last_modified: d.last_modified,
        entries,
    }
}

impl Clone for VfsNode {
    /// Deep copy: the whole subtree is copied.
    fn clone(&self) -> (r: Self)
        ensures
            r@ == self@,
    {
        clone_vnode(self)
    }
}

impl Clone for VfsDir {
    /// Deep copy: the whole subtree is copied.
    fn clone(&self) -> (r: Self)
        ensures
            r@ == self@,
    {
        clone_vdir(self)
    }
}

impl Clone for VfsFile {
    fn clone(&self) -> (r: Self)
        ensures
            r@ == self@,
    {
        VfsFile { name: self.name.clone(), path: self.path.clone(), last_modified: self.last_modified }
    }
}

} // verus!
