//! Declarative descriptions of randomized directory trees, and the plan of
//! filesystem operations that brings one into being.
//!
//! A tree is described with [`RandDir::builder`], [`Dir`], [`File`] and
//! [`BrokenSymlink`]. Entries are made with a [`NameAllocator`], which
//! numbers those that are given no name, so that they can be told apart.
//! Building a tree gives a [`RandDir`]: the operations, in their order, that
//! create the tree below a root directory. The library touches no
//! filesystem; whoever owns the root carries the operations out.

pub mod entry;
pub mod laws;
pub mod model;
pub mod names;
pub mod order;
pub mod places;
pub mod plan;
pub mod rand_dir;
pub mod steps;
pub mod utils;

pub use crate::entry::{BrokenSymlink, Dir, Entry, File};
pub use crate::model::Permissions;
pub use crate::names::{NameAllocator, NameCategory};
pub use crate::plan::{BuildError, Draw, Draws, FsOp, TreePath};
pub use crate::rand_dir::{RandDir, RandDirBuilder};
