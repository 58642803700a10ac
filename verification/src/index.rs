//! The repository index: resolves a repository name to its absolute checkout
//! path and back.  The engine consumes this interface; how the registrations
//! are stored is the implementation's business.

use vstd::prelude::*;

use crate::error::index_error;
use crate::error::ErrorKind;
use crate::paths::AbsolutePathBuf;

verus! {

/// Name-to-path registry of the repositories the engine may touch.  A
/// failing operation surfaces one of the index's own error kinds, never a
/// state error of the engine.
pub trait Index {
    /// The registered checkout path of `repo_name`, if any.
    fn get(&self, repo_name: &String) -> (r: Result<Option<AbsolutePathBuf>, ErrorKind>)
        ensures
            r matches Err(e) ==> index_error(e),
    ;

    /// Registers, or overwrites, the checkout path of `repo_name`.
    fn set(&mut self, repo_name: &String, path: &AbsolutePathBuf) -> (r: Result<(), ErrorKind>)
        ensures
            r matches Err(e) ==> index_error(e),
    ;

    /// Drops the registration of `repo_name`, if any.
    fn unset(&mut self, repo_name: &String) -> (r: Result<(), ErrorKind>)
        ensures
            r matches Err(e) ==> index_error(e),
    ;

    /// Every registered repository with its checkout path.
    fn all(&self) -> (r: Result<Vec<(String, AbsolutePathBuf)>, ErrorKind>)
        ensures
            r matches Err(e) ==> index_error(e),
    ;
}

} // verus!
