//! The capability a version-control backend must offer: current version,
//! diffs between two points of history (or history and the working tree),
//! workspace state, checkout, and file contents at a commit.  The engine
//! consumes this interface; a concrete backend implements it.

use vstd::prelude::*;

use crate::changes::Changes;
use crate::error::vcs_error;
use crate::error::ErrorKind;
use crate::paths::AbsolutePathBuf;
use crate::paths::RelativePathBuf;

verus! {

/// Relies on `String::from_utf8`: it succeeds exactly on valid UTF-8 input,
/// and the returned string's byte encoding is the input unchanged.
#[verifier::external_body]
fn decode_utf8(bytes: Vec<u8>) -> (r: Result<String, ErrorKind>)
    ensures
        r is Ok <==> vstd::utf8::valid_utf8(bytes@),
        r matches Ok(s) ==> vstd::utf8::encode_utf8(s@) == bytes@,
        r matches Err(e) ==> e == ErrorKind::EncodingFailure,
{
    match String::from_utf8(bytes) {
        Ok(s) => Ok(s),
        Err(_) => Err(ErrorKind::EncodingFailure),
    }
}

/// What a version-control backend must provide.  Any operation may fail with
/// a typed error; none may panic.
pub trait VCS {
    /// The commit currently checked out at `repo_path`.
    fn get_current_version(&self, repo_path: &AbsolutePathBuf) -> (r: Result<String, ErrorKind>)
        ensures
            r matches Err(e) ==> vcs_error(e),
    ;

    /// The change set from commit `from` to commit `to`.
    fn diff_with_version(&self, repo_path: &AbsolutePathBuf, from: &String, to: &String) -> (r:
        Result<Changes, ErrorKind>)
        ensures
            r matches Ok(c) ==> c.wf(),
            r matches Err(e) ==> vcs_error(e),
    ;

    /// The change set from commit `from` to the live working tree.
    fn diff_with_worktree(&self, repo_path: &AbsolutePathBuf, from: &String) -> (r: Result<
        Changes,
        ErrorKind,
    >)
        ensures
            r matches Ok(c) ==> c.wf(),
            r matches Err(e) ==> vcs_error(e),
    ;

    /// Whether the working tree differs from the checked-out commit.
    fn is_workspace_dirty(&self, repo_path: &AbsolutePathBuf) -> (r: Result<bool, ErrorKind>)
        ensures
            r matches Err(e) ==> vcs_error(e),
    ;

    /// Checks out `to`; on success the previously checked-out commit is
    /// returned.
    fn checkout_version(&self, repo_path: &AbsolutePathBuf, to: &String) -> Result<
        String,
        ErrorKind,
    >;

    /// The raw contents of `file_path` as of `commit`.
    fn lookup_file_bytes(
        &self,
        repo_path: &AbsolutePathBuf,
        commit: &String,
        file_path: &RelativePathBuf,
    ) -> (r: Result<Vec<u8>, ErrorKind>)
        ensures
            r matches Err(e) ==> vcs_error(e),
    ;

    /// The contents of `file_path` as of `commit`, decoded as UTF-8; fails
    /// with `EncodingFailure` when the file is not UTF-8.
    fn lookup_file_contents(
        &self,
        repo_path: &AbsolutePathBuf,
        commit: &String,
        file_path: &RelativePathBuf,
    ) -> Result<String, ErrorKind> {
        match self.lookup_file_bytes(repo_path, commit, file_path) {
            Ok(bytes) => decode_utf8(bytes),
            Err(e) => Err(e),
        }
    }
}

} // verus!
