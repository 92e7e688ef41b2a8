//! Reading one file's raw bytes at a commit: resolve the commit (an
//! explicit id, a branch tip, or the current head), then look the path up
//! in its tree.

use vstd::prelude::*;
use crate::error::GitError;
use crate::repo::AppGit;
use crate::repo::resolve_tip;
use crate::strutil::spec_is_loid;
use crate::strutil::spec_is_oid;
use crate::tree::validate_head;

verus! {

/// A read request: an optional branch (the current head when absent), the
/// file path, and an optional explicit commit id overriding the branch tip.
#[derive(Clone, Debug)]
pub struct RepoGetBytes {
    pub branch: Option<String>,
    pub path: String,
    pub sha1: Option<String>,
}

/// Relies on git2::Tree::get_path, git2::TreeEntry::to_object and
/// git2::Blob::content: the raw bytes of the blob at `path` in the commit's
/// tree; a missing path or a non-blob object is NotFound.
#[verifier::external_body]
fn tree_path_bytes(repo: &git2::Repository, commit_id: &String, path: &String) -> (r: Result<
    Vec<u8>,
    GitError,
>)
    requires
        spec_is_loid(commit_id@),
{
    let oid = git2::Oid::from_str(commit_id.as_str()).map_err(|_| GitError::NotFound)?;
    let commit = repo.find_commit(oid).map_err(|_| GitError::NotFound)?;
    let tree = commit.tree().map_err(|_| GitError::Io)?;
    let entry = tree.get_path(std::path::Path::new(path.as_str())).map_err(
        |_| GitError::NotFound,
    )?;
    let object = entry.to_object(repo).map_err(|_| GitError::Io)?;
    match object.as_blob() {
        Some(b) => Ok(b.content().to_vec()),
        None => Err(GitError::NotFound),
    }
}

impl AppGit {
    /// Reads the file at the request's path, at the explicit commit when
    /// one is given (a malformed id is NotFound, before the repository is
    /// read), else at the tip of the branch or of the current head.
    pub fn blob_bytes(&self, param: RepoGetBytes) -> (r: Result<Vec<u8>, GitError>)
        ensures
            (param.sha1 is Some && !spec_is_oid(param.sha1->Some_0@)) ==> r == Err::<
                Vec<u8>,
                GitError,
            >(GitError::NotFound),
    {
        let head_l = match validate_head(&param.sha1) {
            Ok(h) => h,
            Err(e) => {
                return Err(e);
            },
        };
        let repo = match self.git() {
            Ok(g) => g,
            Err(e) => {
                return Err(e);
            },
        };
        let commit_id = match head_l {
            Some(h) => h,
            None => match resolve_tip(&repo, &param.branch) {
                Ok(c) => c,
                Err(e) => {
                    return Err(e);
                },
            },
        };
        tree_path_bytes(&repo, &commit_id, &param.path)
    }

    /// Reads one file's bytes at a branch or commit: the explicit commit id
    /// wins over the branch tip, which wins over the current head.
    pub fn cat_file(&self, branch: Option<String>, commit: Option<String>, path: &str) -> (r:
        Result<Vec<u8>, GitError>)
        ensures
            (commit is Some && !spec_is_oid(commit->Some_0@)) ==> r == Err::<Vec<u8>, GitError>(
                GitError::NotFound,
            ),
    {
        self.blob_bytes(RepoGetBytes { branch, path: path.to_owned(), sha1: commit })
    }
}

} // verus!
