pub mod codec;
pub mod fs_node;
pub mod inotify;
pub mod paths;
pub mod render;
pub mod text;
pub mod vfs;
pub mod walk;
pub mod watcher;

pub use fs_node::{DirInfo, FileInfo, FsNode};
pub use watcher::Watcher;
