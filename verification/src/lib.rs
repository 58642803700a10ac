//! Tourist: persistent line-anchored annotations ("stops") grouped into
//! ordered tours, kept in place as the underlying repositories change.

pub mod changes;
pub mod dump;
pub mod engine;
pub mod error;
pub mod index;
pub mod io;
pub mod laws;
pub mod mock;
pub mod paths;
pub mod types;
pub mod version1;
pub mod vcs;

pub use paths::AbsolutePathBuf;
pub use paths::RelativePathBuf;
