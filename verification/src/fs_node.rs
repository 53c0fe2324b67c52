//! The mirrored tree: a node is a directory or a file, a directory owns an
//! ordered list of child nodes.  Timestamps are seconds since the Unix
//! epoch; attribute maps are ordered lists of key/value pairs.

use vstd::prelude::*;
use crate::paths::{file_name_spec, file_name_of, parent_spec, parent_of};

verus! {

/// Failure of a node construction.
#[derive(Clone, Copy, Debug, PartialEq, Eq, Structural)]
pub enum FsNodeError {
    PathDoesNotExist,
    IncorrectFSType,
    InvalidName,
}

impl FsNodeError {
    pub open spec fn message_spec(self) -> Seq<char> {
        match self {
            FsNodeError::PathDoesNotExist => "Path does not exist"@,
            FsNodeError::IncorrectFSType => "Incorrect filesystem type"@,
            FsNodeError::InvalidName => "Invalid name was provided"@,
        }
    }

    /// The wording the error carries for display.
    pub fn message(&self) -> (r: &'static str)
        ensures
            r@ == self.message_spec(),
    {
        match self {
            FsNodeError::PathDoesNotExist => "Path does not exist",
            FsNodeError::IncorrectFSType => "Incorrect filesystem type",
            FsNodeError::InvalidName => "Invalid name was provided",
        }
    }
}

/// What a path refers to on the live filesystem, as the caller saw it.
#[derive(Clone, Copy, Debug, PartialEq, Eq, Structural)]
pub enum PathState {
    Missing,
    File,
    Directory,
}

/// Attribute pairs attached to a node by a caller; never filled by a walk.
pub type Fields = Option<Vec<(String, String)>>;

/// One entry of the mirrored tree.
#[derive(Debug, PartialEq)]
pub enum FsNode {
    Directory(DirInfo),
    File(FileInfo),
}

/// A mirrored directory: its final name, absolute path, optional
/// modification time, display flag, children and attributes.
#[derive(Debug, PartialEq)]
pub struct DirInfo {
    pub name: String,
    pub path: String,
    pub last_modified: Option<u64>,
    pub expanded: bool,
    pub content: Vec<FsNode>,
    pub fields: Fields,
}

/// A mirrored file.
#[derive(Debug, PartialEq)]
pub struct FileInfo {
    pub name: String,
    pub path: String,
    pub last_modified: Option<u64>,
    pub fields: Fields,
}

/// Mathematical image of an attribute list.
pub type FieldsView = Option<Seq<(Seq<char>, Seq<char>)>>;

/// Mathematical image of a node.
pub enum FsNodeView {
    Directory(DirInfoView),
    File(FileInfoView),
}

/// Mathematical image of a directory.
pub struct DirInfoView {
    pub name: Seq<char>,
    pub path: Seq<char>,
    pub last_modified: Option<u64>,
    pub expanded: bool,
    pub content: Seq<FsNodeView>,
    pub fields: FieldsView,
}

/// Mathematical image of a file.
pub struct FileInfoView {
    pub name: Seq<char>,
    pub path: Seq<char>,
    pub last_modified: Option<u64>,
    pub fields: FieldsView,
}

pub open spec fn fields_view(f: Fields) -> FieldsView {
    match f {
        None => None,
        Some(v) => Some(v@.map_values(|p: (String, String)| (p.0@, p.1@))),
    }
}

pub open spec fn file_view(f: FileInfo) -> FileInfoView {
    FileInfoView {
        name: f.name@,
        path: f.path@,
        last_modified: f.last_modified,
        fields: fields_view(f.fields),
    }
}

pub open spec fn node_view(n: FsNode) -> FsNodeView
    decreases n,
{
    match n {
        FsNode::Directory(d) => FsNodeView::Directory(dir_view(d)),
        FsNode::File(f) => FsNodeView::File(file_view(f)),
    }
}

pub open spec fn dir_view(d: DirInfo) -> DirInfoView
    decreases d,
{
    DirInfoView {
        name: d.name@,
        path: d.path@,
        last_modified: d.last_modified,
        expanded: d.expanded,
        content: nodes_view(d.content@),
        fields: fields_view(d.fields),
    }
}

pub open spec fn nodes_view(s: Seq<FsNode>) -> Seq<FsNodeView>
    decreases s,
{
    if s.len() == 0 {
        seq![]
    } else {
        nodes_view(s.drop_last()).push(node_view(s.last()))
    }
}

impl View for FsNode {
    type V = FsNodeView;

    open spec fn view(&self) -> FsNodeView {
        node_view(*self)
    }
}

impl View for DirInfo {
    type V = DirInfoView;

    open spec fn view(&self) -> DirInfoView {
        dir_view(*self)
    }
}

impl View for FileInfo {
    type V = FileInfoView;

    open spec fn view(&self) -> FileInfoView {
        file_view(*self)
    }
}

pub broadcast proof fn lemma_nodes_view_len(s: Seq<FsNode>)
    ensures
        #[trigger] nodes_view(s).len() == s.len(),
    decreases s,
{
    if s.len() > 0 {
        lemma_nodes_view_len(s.drop_last());
    }
}

pub broadcast proof fn lemma_nodes_view_index(s: Seq<FsNode>, i: int)
    requires
        0 <= i < s.len(),
    ensures
        #[trigger] nodes_view(s)[i] == node_view(s[i]),
    decreases s,
{
    lemma_nodes_view_len(s.drop_last());
    if i < s.len() - 1 {
        lemma_nodes_view_index(s.drop_last(), i);
    }
}

pub broadcast proof fn lemma_nodes_view_push(s: Seq<FsNode>, n: FsNode)
    ensures
        #[trigger] nodes_view(s.push(n)) == nodes_view(s).push(node_view(n)),
{
    assert(s.push(n).drop_last() =~= s);
}

/// Well-formedness of a file node: its name is the final component of
/// its absolute path.
pub open spec fn file_wf(f: FileInfoView) -> bool {
    file_name_spec(f.path) == Some(f.name)
}

/// Well-formedness of a directory node: its name is the final component
/// of its absolute path, every child is well formed, and no two children
/// share an absolute path.
pub open spec fn dir_wf(d: DirInfoView) -> bool
    decreases d,
{
    &&& file_name_spec(d.path) == Some(d.name)
    &&& nodes_wf(d.content)
    &&& forall|i: int, j: int|
        0 <= i < j < d.content.len() ==> node_path(d.content[i]) != node_path(d.content[j])
}

pub open spec fn nodes_wf(s: Seq<FsNodeView>) -> bool
    decreases s,
{
    if s.len() == 0 {
        true
    } else {
        nodes_wf(s.drop_last()) && node_wf(s.last())
    }
}

pub open spec fn node_wf(n: FsNodeView) -> bool
    decreases n,
{
    match n {
        FsNodeView::Directory(d) => dir_wf(d),
        FsNodeView::File(f) => file_wf(f),
    }
}

/// The name a node shows, over its image.
pub open spec fn node_name(n: FsNodeView) -> Seq<char> {
    match n {
        FsNodeView::Directory(d) => d.name,
        FsNodeView::File(f) => f.name,
    }
}

/// The absolute path of a node, over its image.
pub open spec fn node_path(n: FsNodeView) -> Seq<char> {
    match n {
        FsNodeView::Directory(d) => d.path,
        FsNodeView::File(f) => f.path,
    }
}

/// `s` with every node whose path is `p` dropped.
pub open spec fn remove_path(s: Seq<FsNodeView>, p: Seq<char>) -> Seq<FsNodeView>
    decreases s,
{
    if s.len() == 0 {
        seq![]
    } else {
        let rest = remove_path(s.drop_last(), p);
        if node_path(s.last()) == p {
            rest
        } else {
            rest.push(s.last())
        }
    }
}

impl FsNode {
    /// Whether this node is a directory.
    pub fn is_dir(&self) -> (r: bool)
        ensures
            r == (self@ matches FsNodeView::Directory(_)),
    {
        match self {
            FsNode::Directory(_) => true,
            FsNode::File(_) => false,
        }
    }

    /// The node's bare name.
    pub fn name(&self) -> (r: String)
        ensures
            r@ == node_name(self@),
    {
        match self {
            FsNode::Directory(d) => d.name.clone(),
            FsNode::File(f) => f.name.clone(),
        }
    }

    /// The node's absolute path.
    pub fn path(&self) -> (r: String)
        ensures
            r@ == node_path(self@),
    {
        match self {
            FsNode::Directory(d) => d.path.clone(),
            FsNode::File(f) => f.path.clone(),
        }
    }
}

impl DirInfo {
    /// Builds a directory node for `path`, which the caller has observed in
    /// the state `state`.  Fails when the path is missing, is no directory,
    /// or has no valid final component.
    pub fn new(
        path: &str,
        state: PathState,
        last_modified: Option<u64>,
        expanded: bool,
        content: Vec<FsNode>,
        fields: Fields,
    ) -> (r: Result<DirInfo, FsNodeError>)
        ensures
            state == PathState::Missing ==> r == Err::<DirInfo, FsNodeError>(
                FsNodeError::PathDoesNotExist,
            ),
            state == PathState::File ==> r == Err::<DirInfo, FsNodeError>(
                FsNodeError::IncorrectFSType,
            ),
            state == PathState::Directory && file_name_spec(path@) is None ==> r == Err::<
                DirInfo,
                FsNodeError,
            >(FsNodeError::InvalidName),
            (state == PathState::Directory && file_name_spec(path@) is Some) ==> (r matches
                Ok(d) && d@ == (DirInfoView {
                name: file_name_spec(path@)->0,
                path: path@,
                last_modified,
                expanded,
                content: nodes_view(content@),
                fields: fields_view(fields),
            })),
    {
        match state {
            PathState::Missing => Err(FsNodeError::PathDoesNotExist),
            PathState::File => Err(FsNodeError::IncorrectFSType),
            PathState::Directory => {
                match file_name_of(path) {
                    None => Err(FsNodeError::InvalidName),
                    Some(name) => Ok(
                        DirInfo {
                            name,
                            path: path.to_owned(),
                            last_modified,
                            expanded,
                            content,
                            fields,
                        },
                    ),
                }
            },
        }
    }

    /// Builds an empty, expanded directory node for `path`, with no
    /// timestamp and no attributes.
    pub fn from(path: &str, state: PathState) -> (r: Result<DirInfo, FsNodeError>)
        ensures
            state == PathState::Missing ==> r == Err::<DirInfo, FsNodeError>(
                FsNodeError::PathDoesNotExist,
            ),
            state == PathState::File ==> r == Err::<DirInfo, FsNodeError>(
                FsNodeError::IncorrectFSType,
            ),
            state == PathState::Directory && file_name_spec(path@) is None ==> r == Err::<
                DirInfo,
                FsNodeError,
            >(FsNodeError::InvalidName),
            (state == PathState::Directory && file_name_spec(path@) is Some) ==> (r matches
                Ok(d) && d@ == (DirInfoView {
                name: file_name_spec(path@)->0,
                path: path@,
                last_modified: None,
                expanded: true,
                content: Seq::empty(),
                fields: None,
            })),
    {
        let r = Self::new(path, state, None, true, Vec::new(), None);
        r
    }

    /// Overwrites the stored absolute path; the name is left as it is.
    pub fn set_path(&mut self, path: &str)
        ensures
            final(self)@ == (DirInfoView { path: path@, ..old(self)@ }),
    {
        self.path = path.to_owned();
    }

    /// The absolute path, as an owned string.
    pub fn path_string(&self) -> (r: String)
        ensures
            r@ == self@.path,
    {
        self.path.clone()
    }

    /// The parent prefix of the stored path.
    pub fn parent(&self) -> (r: Option<String>)
        ensures
            r matches Some(p) ==> parent_spec(self@.path) == Some(p@),
            r is None ==> parent_spec(self@.path) is None,
    {
        parent_of(self.path.as_str())
    }

    /// Records a modification time.
    pub fn set_last_modified(&mut self, last_modified: u64)
        ensures
            final(self)@ == (DirInfoView { last_modified: Some(last_modified), ..old(self)@ }),
    {
        self.last_modified = Some(last_modified);
    }

    /// Orders the stored modification time against `time`; `None` when no
    /// time has been recorded yet.
    pub fn cmp(&self, time: &u64) -> (r: Option<core::cmp::Ordering>)
        ensures
            r == match self@.last_modified {
                Some(t) => Some(ord_of(t, *time)),
                None => None::<core::cmp::Ordering>,
            },
    {
        match self.last_modified {
            Some(t) => Some(ord_u64(t, *time)),
            None => None,
        }
    }

    /// Marks the directory as shown open.  Children are untouched.
    pub fn expand(&mut self)
        ensures
            final(self)@ == (DirInfoView { expanded: true, ..old(self)@ }),
    {
        self.expanded = true;
    }

    /// Marks the directory as shown collapsed.  Children are untouched.
    pub fn unexpand(&mut self)
        ensures
            final(self)@ == (DirInfoView { expanded: false, ..old(self)@ }),
    {
        self.expanded = false;
    }

    /// Sets the display flag.  Children are untouched.
    pub fn expanded(&mut self, value: bool)
        ensures
            final(self)@ == (DirInfoView { expanded: value, ..old(self)@ }),
    {
        self.expanded = value;
    }

    /// Replaces the whole child list.
    pub fn set_content(&mut self, content: Vec<FsNode>)
        ensures
            final(self)@ == (DirInfoView { content: nodes_view(content@), ..old(self)@ }),
    {
        self.content = content;
    }

    /// Appends one child node.
    pub fn insert(&mut self, content: FsNode)
        ensures
            final(self)@ == (DirInfoView {
                content: old(self)@.content.push(content@),
                ..old(self)@
            }),
    {
        proof {
            lemma_nodes_view_push(self.content@, content);
        }
        self.content.push(content);
    }

    /// Drops every child whose absolute path is `path`.
    pub fn remove(&mut self, path: &str)
        ensures
            final(self)@ == (DirInfoView {
                content: remove_path(old(self)@.content, path@),
                ..old(self)@
            }),
    {
        let ghost orig = self.content@;
        let mut kept: Vec<FsNode> = Vec::new();
        let mut i: usize = 0;
        while i < self.content.len()
            invariant
                i <= self.content.len(),
                self.content@ == orig,
                nodes_view(kept@) == remove_path(nodes_view(orig.subrange(0, i as int)), path@),
            decreases self.content.len() - i,
        {
            let ghost prefix = nodes_view(orig.subrange(0, i as int));
            let node_path_str = self.content[i].path();
            let matches_target = crate::paths::str_eq(node_path_str.as_str(), path);
            proof {
                lemma_nodes_view_index(orig, i as int);
                assert(orig.subrange(0, i + 1 as int).drop_last() =~= orig.subrange(0, i as int));
                lemma_nodes_view_len(orig.subrange(0, i + 1 as int));
                assert(nodes_view(orig.subrange(0, i + 1 as int)) == prefix.push(
                    node_view(orig[i as int]),
                )) by {
                    assert(orig.subrange(0, i + 1 as int).last() == orig[i as int]);
                }
                assert(prefix.push(node_view(orig[i as int])).drop_last() =~= prefix);
            }
            if !matches_target {
                let n = clone_node(&self.content[i]);
                proof {
                    lemma_nodes_view_push(kept@, n);
                }
                kept.push(n);
            }
            i = i + 1;
        }
        proof {
            assert(orig.subrange(0, orig.len() as int) =~= orig);
        }
        self.content = kept;
    }

    /// Inserts or replaces one attribute pair: the value of the first pair
    /// whose key is `key` is replaced; a fresh key is appended.  An absent
    /// attribute list becomes a list of this one pair.
    pub fn add_field(&mut self, key: String, value: String)
        ensures
            upsert_post(fields_view(old(self).fields), key@, value@, fields_view(
                final(self).fields,
            )),
            final(self)@ == (DirInfoView { fields: fields_view(final(self).fields), ..old(self)@ }),
    {
        let mut tmp: Fields = None;
        core::mem::swap(&mut self.fields, &mut tmp);
        self.fields = upsert_field(tmp, key, value);
    }

    /// Replaces the attribute list.
    pub fn set_fields(&mut self, fields: Fields)
        ensures
            final(self)@ == (DirInfoView { fields: fields_view(fields), ..old(self)@ }),
    {
        self.fields = fields;
    }

    /// Deep copy of this directory.
    pub fn build(&self) -> (r: Self)
        ensures
            r@ == self@,
    {
        clone_dir(self)
    }
}

/// How one attribute upsert relates the list after the call to the list
/// before it: the first pair with the given key has its value replaced, a
/// fresh key is appended, and an absent list becomes one of a single pair.
pub open spec fn upsert_post(
    old_f: FieldsView,
    k: Seq<char>,
    v: Seq<char>,
    new_f: FieldsView,
) -> bool {
    match old_f {
        None => new_f == Some(seq![(k, v)]),
        Some(m) => {
            if exists|i: int| 0 <= i < m.len() && (#[trigger] m[i]).0 == k {
                exists|i: int|
                    0 <= i < m.len() && (#[trigger] m[i]).0 == k && (forall|j: int|
                        0 <= j < i ==> m[j].0 != k) && new_f == Some(m.update(i, (k, v)))
            } else {
                new_f == Some(m.push((k, v)))
            }
        },
    }
}

/// Performs the attribute upsert that `upsert_post` describes.
#[verifier::loop_isolation(false)]
fn upsert_field(f: Fields, key: String, value: String) -> (r: Fields)
    ensures
        upsert_post(fields_view(f), key@, value@, fields_view(r)),
{
    let ghost fv = fields_view(f);
    match f {
        None => {
            let mut v: Vec<(String, String)> = Vec::new();
            v.push((key, value));
            let r = Some(v);
            proof {
                assert(fields_view(r)->0 =~= seq![(key@, value@)]);
            }
            r
        },
        Some(mut v) => {
            let ghost m = fv->0;
            let ghost orig = v@;
            let n = v.len();
            let mut i: usize = 0;
            while i < n
                invariant
                    i <= n,
                    n == v.len(),
                    v@ == orig,
                    m.len() == orig.len(),
                    forall|j: int| 0 <= j < orig.len() ==> (#[trigger] m[j]) == (
                    orig[j].0@,
                    orig[j].1@,
                    ),
                    forall|j: int| 0 <= j < i ==> (#[trigger] m[j]).0 != key@,
                decreases n - i,
            {
                if crate::paths::str_eq(v[i].0.as_str(), key.as_str()) {
                    proof {
                        assert((#[trigger] m[i as int]).0 == key@);
                    }
                    let ghost witness = i as int;
                    v.set(i, (key, value));
                    let r = Some(v);
                    proof {
                        assert(fields_view(r)->0 =~= m.update(witness, (key@, value@)));
                        assert(fields_view(r) == Some(m.update(witness, (key@, value@))));
                        assert(exists|i2: int|
                            0 <= i2 < m.len() && (#[trigger] m[i2]).0 == key@ && (forall|j: int|
                                0 <= j < i2 ==> m[j].0 != key@) && fields_view(r) == Some(
                                m.update(i2, (key@, value@)),
                            ));
                    }
                    return r;
                }
                i = i + 1;
            }
            v.push((key, value));
            let r = Some(v);
            proof {
                assert(forall|j: int| 0 <= j < m.len() ==> (#[trigger] m[j]).0 != key@);
                assert(fields_view(r)->0 =~= m.push((key@, value@)));
                assert(fields_view(r) == Some(m.push((key@, value@))));
            }
            r
        },
    }
}

impl FileInfo {
    /// Builds a file node from its parts.
    pub fn new(name: String, path: String, last_modified: Option<u64>, fields: Fields) -> (r: Self)
        ensures
            r@ == (FileInfoView {
                name: name@,
                path: path@,
                last_modified,
                fields: fields_view(fields),
            }),
    {
        FileInfo { name, path, last_modified, fields }
    }

    /// Overwrites the bare name.
    pub fn set_name(&mut self, name: &str)
        ensures
            final(self)@ == (FileInfoView { name: name@, ..old(self)@ }),
    {
        self.name = name.to_owned();
    }

    /// Overwrites the stored absolute path; the name is left as it is.
    pub fn set_path(&mut self, path: &str)
        ensures
            final(self)@ == (FileInfoView { path: path@, ..old(self)@ }),
    {
        self.path = path.to_owned();
    }

    /// The absolute path, as an owned string.
    pub fn path_string(&self) -> (r: String)
        ensures
            r@ == self@.path,
    {
        self.path.clone()
    }

    /// The parent prefix of the stored path.
    pub fn parent(&self) -> (r: Option<String>)
        ensures
            r matches Some(p) ==> parent_spec(self@.path) == Some(p@),
            r is None ==> parent_spec(self@.path) is None,
    {
        parent_of(self.path.as_str())
    }

    /// Records a modification time.
    pub fn set_last_modified(&mut self, last_modified: u64)
        ensures
            final(self)@ == (FileInfoView { last_modified: Some(last_modified), ..old(self)@ }),
    {
        self.last_modified = Some(last_modified);
    }

    /// Orders the stored modification time against `time`; `None` when no
    /// time has been recorded yet.
    pub fn cmp(&self, time: &u64) -> (r: Option<core::cmp::Ordering>)
        ensures
            r == match self@.last_modified {
                Some(t) => Some(ord_of(t, *time)),
                None => None::<core::cmp::Ordering>,
            },
    {
        match self.last_modified {
            Some(t) => Some(ord_u64(t, *time)),
            None => None,
        }
    }

    /// Inserts or replaces one attribute pair, as `upsert_post` describes.
    pub fn add_field(&mut self, key: String, value: String)
        ensures
            upsert_post(fields_view(old(self).fields), key@, value@, fields_view(
                final(self).fields,
            )),
            final(self)@ == (FileInfoView { fields: fields_view(final(self).fields), ..old(self)@ }),
    {
        let mut tmp: Fields = None;
        core::mem::swap(&mut self.fields, &mut tmp);
        self.fields = upsert_field(tmp, key, value);
    }

    /// Deep copy of this file node.
    pub fn build(&self) -> (r: Self)
        ensures
            r@ == self@,
    {
        clone_file(self)
    }
}

impl Default for DirInfo {
    /// An unnamed, collapsed, empty directory with no path, time or
    /// attributes.
    fn default() -> (r: Self)
        ensures
            r@ == (DirInfoView {
                name: Seq::empty(),
                path: Seq::empty(),
                last_modified: None,
                expanded: false,
                content: Seq::empty(),
                fields: None,
            }),
    {
        DirInfo {
            name: String::new(),
            path: String::new(),
            last_modified: None,
            expanded: false,
            content: Vec::new(),
            fields: None,
        }
    }
}

impl Default for FileInfo {
    /// An unnamed file with no path, time or attributes.
    fn default() -> (r: Self)
        ensures
            r@ == (FileInfoView {
                name: Seq::empty(),
                path: Seq::empty(),
                last_modified: None,
                fields: None,
            }),
    {
        FileInfo { name: String::new(), path: String::new(), last_modified: None, fields: None }
    }
}

/// `Less`, `Equal` or `Greater`, as `a` orders against `b`.
pub open spec fn ord_of(a: u64, b: u64) -> core::cmp::Ordering {
    if a < b {
        core::cmp::Ordering::Less
    } else if a == b {
        core::cmp::Ordering::Equal
    } else {
        core::cmp::Ordering::Greater
    }
}

fn ord_u64(a: u64, b: u64) -> (r: core::cmp::Ordering)
    ensures
        r == ord_of(a, b),
{
    if a < b {
        core::cmp::Ordering::Less
    } else if a == b {
        core::cmp::Ordering::Equal
    } else {
        core::cmp::Ordering::Greater
    }
}

/// Deep copy of a node.
pub fn clone_node(n: &FsNode) -> (r: FsNode)
    ensures
        r@ == n@,
    decreases *n,
{
    match n {
        FsNode::Directory(d) => FsNode::Directory(clone_dir(d)),
        FsNode::File(f) => FsNode::File(clone_file(f)),
    }
}

/// Deep copy of a directory and its whole subtree.
pub fn clone_dir(d: &DirInfo) -> (r: DirInfo)
    ensures
        r@ == d@,
    decreases *d,
{
    let mut content: Vec<FsNode> = Vec::new();
    let mut i: usize = 0;
    while i < d.content.len()
        invariant
            i <= d.content.len(),
            nodes_view(content@) == nodes_view(d.content@.subrange(0, i as int)),
        decreases d.content.len() - i,
    {
        let c = clone_node(&d.content[i]);
        proof {
            lemma_nodes_view_push(content@, c);
            assert(d.content@.subrange(0, i + 1 as int).drop_last() =~= d.content@.subrange(
                0,
                i as int,
            ));
        }
        content.push(c);
        i = i + 1;
    }
    proof {
        assert(d.content@.subrange(0, d.content@.len() as int) =~= d.content@);
    }
    DirInfo {
        name: d.name.clone(),
        path: d.path.clone(),
        last_modified: d.last_modified,
        expanded: d.expanded,
        content,
        fields: clone_fields(&d.fields),
    }
}

/// Deep copy of a file node.
pub fn clone_file(f: &FileInfo) -> (r: FileInfo)
    ensures
        r@ == f@,
{
    FileInfo {
        name: f.name.clone(),
        path: f.path.clone(),
        last_modified: f.last_modified,
        fields: clone_fields(&f.fields),
    }
}

/// Copy of an attribute list.
pub fn clone_fields(f: &Fields) -> (r: Fields)
    ensures
        fields_view(r) == fields_view(*f),
{
    match f {
        None => None,
        Some(v) => {
            let mut out: Vec<(String, String)> = Vec::new();
            let mut i: usize = 0;
            while i < v.len()
                invariant
                    i <= v.len(),
                    out@ =~= v@.subrange(0, i as int),
                decreases v.len() - i,
            {
                let pair = (v[i].0.clone(), v[i].1.clone());
                out.push(pair);
                proof {
                    assert(out@ =~= v@.subrange(0, i + 1 as int));
                }
                i = i + 1;
            }
            proof {
                assert(v@.subrange(0, v@.len() as int) =~= v@);
            }
            Some(out)
        },
    }
}

impl Clone for FsNode {
    /// Deep copy: the whole subtree is copied.
    fn clone(&self) -> (r: Self)
        ensures
            r@ == self@,
    {
        clone_node(self)
    }
}

impl Clone for DirInfo {
    /// Deep copy: the whole subtree is copied.
    fn clone(&self) -> (r: Self)
        ensures
            r@ == self@,
    {
        clone_dir(self)
    }
}

impl Clone for FileInfo {
    fn clone(&self) -> (r: Self)
        ensures
            r@ == self@,
    {
        clone_file(self)
    }
}

} // verus!
