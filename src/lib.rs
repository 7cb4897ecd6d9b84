//! Decide whether two directory trees differ, and where: the two trees are
//! walked side by side and each relative path present in either of them is
//! paired once, then judged by an assertion policy.
//!
//! The filesystem itself stays with the caller: it drives the two
//! traversals and reports what exists at a path (see [`IntoIter`]), or hands
//! over both trees as [`Tree`] snapshots.
pub mod entry;
pub mod error;
pub mod iter;
pub mod laws;
pub mod path;
pub mod tree;

pub use entry::{Contents, DiffEntry, DirEntry, FileKind};
pub use error::{AssertionError, AssertionKind, IoError};
pub use iter::{DirDiff, IntoIter, Phase};
pub use path::Component;
pub use tree::{diff_trees, trees_differ, Tree, WalkItem};
