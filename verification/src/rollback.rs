//! Point-in-time capture of a directory tree and its restoration.
//!
//! [`walk`] decides what goes into an archive while a tree is traversed,
//! [`archive`] says where the archive is kept, and [`restore`] decides the
//! order of the destructive steps that put an archive back in place.
//!
//! The other modules state what these come to. [`traversal`] speaks of every
//! traversal, whatever the file system answers: every entry lies under the
//! root name, a directory is archived once however often it is reached, and
//! the traversal ends. [`tree`], [`contents`] and [`failures`] hold a
//! traversal against the tree it walks: the archive has every node that can
//! be archived, and a node that fails costs only itself. [`effect`] gives
//! the steps of a restoration their meaning on a model of the file system,
//! and [`roundtrip`] puts the two halves together.

pub mod archive;
pub mod contents;
pub mod effect;
pub mod failures;
pub mod restore;
pub mod roundtrip;
pub mod traversal;
pub mod tree;
pub mod walk;
