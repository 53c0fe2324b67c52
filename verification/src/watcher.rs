//! The aggregate: one mirrored tree, the walk configuration that governs
//! pruning, and the root's name and path.  Ignore edits take effect on
//! the next walk; a walk replaces the tree wholesale.

use vstd::prelude::*;
use vstd::string::StringExecFns;
use crate::fs_node::{dir_view, DirInfo, DirInfoView, FsNodeError, PathState};
use crate::paths::{file_name_of, file_name_spec};
use crate::render::{build_tree, lines_view, render_model};
use crate::vfs::VfsDir;
use crate::walk::{names_view, walk_dir_model, walk_seq};

verus! {

/// Failure of an aggregate operation.
#[derive(Debug, PartialEq)]
pub enum WatcherError {
    PathDoesNotExist,
    NotADirectory,
    InvalidDirectoryName,
    IOError(String),
    NodeError(FsNodeError),
    DecodeError,
}

impl WatcherError {
    pub open spec fn message_spec(self) -> Seq<char> {
        match self {
            WatcherError::PathDoesNotExist => "Path does not exist"@,
            WatcherError::NotADirectory => "The path is not a directory"@,
            WatcherError::InvalidDirectoryName => "Invalid directory name"@,
            WatcherError::IOError(e) => e@,
            WatcherError::NodeError(e) => e.message_spec(),
            WatcherError::DecodeError => "The stored snapshot did not decode"@,
        }
    }

    /// The wording the error carries for display.
    pub fn message(&self) -> (r: String)
        ensures
            r@ == self.message_spec(),
    {
        match self {
            WatcherError::PathDoesNotExist => String::from_str("Path does not exist"),
            WatcherError::NotADirectory => String::from_str("The path is not a directory"),
            WatcherError::InvalidDirectoryName => String::from_str("Invalid directory name"),
            WatcherError::IOError(e) => e.clone(),
            WatcherError::NodeError(e) => String::from_str(e.message()),
            WatcherError::DecodeError => String::from_str("The stored snapshot did not decode"),
        }
    }
}

/// The aggregate: root name and path, hidden-file policy, ignore names,
/// and the mirrored tree.
#[derive(Debug, PartialEq)]
pub struct Watcher {
    pub dir_name: String,
    pub path: String,
    pub ignore_hidden: bool,
    pub ignore_list: Vec<String>,
    pub dir_info: DirInfo,
}

/// Mathematical image of the aggregate.
pub struct WatcherView {
    pub dir_name: Seq<char>,
    pub path: Seq<char>,
    pub ignore_hidden: bool,
    pub ignore_list: Seq<Seq<char>>,
    pub dir_info: DirInfoView,
}

impl View for Watcher {
    type V = WatcherView;

    open spec fn view(&self) -> WatcherView {
        WatcherView {
            dir_name: self.dir_name@,
            path: self.path@,
            ignore_hidden: self.ignore_hidden,
            ignore_list: names_view(self.ignore_list@),
            dir_info: dir_view(self.dir_info),
        }
    }
}

/// `l` with every occurrence of the name `x` dropped.
pub open spec fn remove_name(l: Seq<Seq<char>>, x: Seq<char>) -> Seq<Seq<char>>
    decreases l,
{
    if l.len() == 0 {
        seq![]
    } else {
        let rest = remove_name(l.drop_last(), x);
        if l.last() == x {
            rest
        } else {
            rest.push(l.last())
        }
    }
}

impl Watcher {
    /// Builds a watcher over `input`, which the caller has observed in the
    /// state `state`: the tree starts empty and expanded, hidden entries
    /// are ignored by default, the ignore list starts empty.
    pub fn new(input: &str, state: PathState) -> (r: Result<Watcher, WatcherError>)
        ensures
            state == PathState::Missing ==> r == Err::<Watcher, WatcherError>(
                WatcherError::PathDoesNotExist,
            ),
            state == PathState::File ==> r == Err::<Watcher, WatcherError>(
                WatcherError::NotADirectory,
            ),
            state == PathState::Directory && file_name_spec(input@) is None ==> r == Err::<
                Watcher,
                WatcherError,
            >(WatcherError::InvalidDirectoryName),
            (state == PathState::Directory && file_name_spec(input@) is Some) ==> (r matches Ok(w)
                && w@ == (WatcherView {
                dir_name: file_name_spec(input@)->0,
                path: input@,
                ignore_hidden: true,
                ignore_list: Seq::empty(),
                dir_info: (DirInfoView {
                    name: file_name_spec(input@)->0,
                    path: input@,
                    last_modified: None,
                    expanded: true,
                    content: Seq::empty(),
                    fields: None,
                }),
            })),
    {
        match state {
            PathState::Missing => Err(WatcherError::PathDoesNotExist),
            PathState::File => Err(WatcherError::NotADirectory),
            PathState::Directory => {
                match file_name_of(input) {
                    None => Err(WatcherError::InvalidDirectoryName),
                    Some(dir_name) => {
                        match DirInfo::from(input, state) {
                            Err(e) => Err(WatcherError::NodeError(e)),
                            Ok(dir_info) => {
                                proof {
                                    assert(names_view(Seq::<String>::empty()) =~= Seq::<
                                        Seq<char>,
                                    >::empty());
                                }
                                Ok(
                                    Watcher {
                                        dir_name,
                                        path: input.to_owned(),
                                        ignore_hidden: true,
                                        ignore_list: Vec::new(),
                                        dir_info,
                                    },
                                )
                            },
                        }
                    },
                }
            },
        }
    }

    /// Builds a watcher around a tree that already exists, keeping that
    /// tree as it is; the root path and name come from the tree's path,
    /// which the caller has observed in the state `state`.
    pub fn from(dir_info: DirInfo, state: PathState) -> (r: Result<Watcher, WatcherError>)
        ensures
            state == PathState::Missing ==> r == Err::<Watcher, WatcherError>(
                WatcherError::PathDoesNotExist,
            ),
            state == PathState::File ==> r == Err::<Watcher, WatcherError>(
                WatcherError::NotADirectory,
            ),
            state == PathState::Directory && file_name_spec(dir_view(dir_info).path) is None ==> r
                == Err::<Watcher, WatcherError>(WatcherError::InvalidDirectoryName),
            (state == PathState::Directory && file_name_spec(dir_view(dir_info).path) is Some) ==> (
            r matches Ok(w) && w@ == (WatcherView {
                dir_name: file_name_spec(dir_view(dir_info).path)->0,
                path: dir_view(dir_info).path,
                ignore_hidden: true,
                ignore_list: Seq::empty(),
                dir_info: dir_view(dir_info),
            })),
    {
        match state {
            PathState::Missing => Err(WatcherError::PathDoesNotExist),
            PathState::File => Err(WatcherError::NotADirectory),
            PathState::Directory => {
                match file_name_of(dir_info.path.as_str()) {
                    None => Err(WatcherError::InvalidDirectoryName),
                    Some(dir_name) => {
                        let path = dir_info.path.clone();
                        proof {
                            assert(names_view(Seq::<String>::empty()) =~= Seq::<Seq<char>>::empty());
                        }
                        Ok(Watcher { dir_name, path, ignore_hidden: true, ignore_list: Vec::new(), dir_info })
                    },
                }
            },
        }
    }

    /// The root path, as an owned string.
    pub fn path_string(&self) -> (r: String)
        ensures
            r@ == self@.path,
    {
        self.path.clone()
    }

    /// Empties the ignore list; effective on the next walk.
    pub fn ignore_reset(&mut self)
        ensures
            final(self)@ == (WatcherView { ignore_list: Seq::empty(), ..old(self)@ }),
    {
        proof {
            assert(names_view(Seq::<String>::empty()) =~= Seq::<Seq<char>>::empty());
        }
        self.ignore_list = Vec::new();
    }

    /// Appends one bare name to the ignore list; effective on the next walk.
    pub fn add_ignore(&mut self, item: &str)
        ensures
            final(self)@ == (WatcherView {
                ignore_list: old(self)@.ignore_list.push(item@),
                ..old(self)@
            }),
    {
        let owned = item.to_owned();
        proof {
            assert(names_view(self.ignore_list@.push(owned)) =~= names_view(
                self.ignore_list@,
            ).push(owned@));
        }
        self.ignore_list.push(owned);
    }

    /// Drops every occurrence of one bare name from the ignore list;
    /// effective on the next walk.
    pub fn remove_ignore(&mut self, item: &str)
        ensures
            final(self)@ == (WatcherView {
                ignore_list: remove_name(old(self)@.ignore_list, item@),
                ..old(self)@
            }),
    {
        let ghost orig = self.ignore_list@;
        let mut kept: Vec<String> = Vec::new();
        let mut i: usize = 0;
        while i < self.ignore_list.len()
            invariant
                i <= self.ignore_list.len(),
                self.ignore_list@ == orig,
                names_view(kept@) == remove_name(names_view(orig.subrange(0, i as int)), item@),
            decreases self.ignore_list.len() - i,
        {
            let ghost prefix = names_view(orig.subrange(0, i as int));
            proof {
                assert(names_view(orig.subrange(0, i + 1 as int)).drop_last() =~= prefix);
                assert(names_view(orig.subrange(0, i + 1 as int)).last() == orig[i as int]@);
                assert(names_view(orig.subrange(0, i + 1 as int)) == prefix.push(
                    orig[i as int]@,
                )) by {
                    assert(names_view(orig.subrange(0, i + 1 as int)) =~= prefix.push(
                        orig[i as int]@,
                    ));
                }
            }
            if !crate::paths::str_eq(self.ignore_list[i].as_str(), item) {
                let kept_item = self.ignore_list[i].clone();
                proof {
                    assert(names_view(kept@.push(kept_item)) =~= names_view(kept@).push(
                        kept_item@,
                    ));
                }
                kept.push(kept_item);
            }
            i = i + 1;
        }
        proof {
            assert(orig.subrange(0, orig.len() as int) =~= orig);
        }
        self.ignore_list = kept;
    }

    /// Replaces the mirrored tree wholesale.
    pub fn set_dir_info(&mut self, info: DirInfo)
        ensures
            final(self)@ == (WatcherView { dir_info: dir_view(info), ..old(self)@ }),
    {
        self.dir_info = info;
    }

    /// One walk: replaces the tree with the mirror of the observed
    /// snapshot `fs`, pruned under the current configuration.  Nothing
    /// else of the aggregate changes.
    pub fn walk(&mut self, fs: &VfsDir)
        ensures
            final(self)@ == (WatcherView {
                dir_info: walk_dir_model(fs@, old(self)@.ignore_hidden, old(self)@.ignore_list),
                ..old(self)@
            }),
            crate::vfs::vdir_wf(fs@) ==> crate::fs_node::dir_wf(final(self)@.dir_info),
    {
        proof {
            if crate::vfs::vdir_wf(fs@) {
                crate::walk::lemma_walk_dir_wf(fs@, self.ignore_hidden, names_view(self.ignore_list@));
            }
        }
        let tree = walk_seq(fs, self.ignore_hidden, &self.ignore_list);
        self.dir_info = tree;
    }

    /// One walk with the iterative strategy: the same tree as `walk`,
    /// built with an explicit pending stack in place of the call stack.
    pub fn walk_iterative(&mut self, fs: &VfsDir)
        ensures
            final(self)@ == (WatcherView {
                dir_info: walk_dir_model(fs@, old(self)@.ignore_hidden, old(self)@.ignore_list),
                ..old(self)@
            }),
            crate::vfs::vdir_wf(fs@) ==> crate::fs_node::dir_wf(final(self)@.dir_info),
    {
        proof {
            if crate::vfs::vdir_wf(fs@) {
                crate::walk::lemma_walk_dir_wf(fs@, self.ignore_hidden, names_view(self.ignore_list@));
            }
        }
        let tree = crate::walk::walk_iter(fs, self.ignore_hidden, &self.ignore_list);
        self.dir_info = tree;
    }

    /// The display lines of the mirrored tree.
    pub fn build_tree(&self) -> (r: Vec<String>)
        ensures
            lines_view(r@) == render_model(self@.dir_info),
    {
        build_tree(&self.dir_info)
    }
}

} // verus!
