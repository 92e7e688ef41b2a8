//! The per-commit diff view: the files a commit changed against its first
//! parent (the root diff for a parentless commit), each with its change
//! status and its old and new paths.

use vstd::prelude::*;
use crate::error::GitError;
use crate::repo::AppGit;
use crate::repo::resolve_tip;
use crate::strutil::spec_is_oid;
use crate::tree::validate_head;

verus! {

/// Diff request: an explicit commit id or a branch (the current head when
/// both are absent).
#[derive(Clone, Debug)]
pub struct GitTreeParam {
    pub oid: Option<String>,
    pub branch: Option<String>,
}

/// One side of a changed file.
#[derive(Clone, Debug)]
pub struct GitTreeFile {
    pub path: String,
}

/// One changed file: its change status and both sides' paths.
#[derive(Clone, Debug)]
pub struct GitTreeFileMap {
    pub status: String,
    pub old_file: Option<GitTreeFile>,
    pub new_file: Option<GitTreeFile>,
}

/// The files one commit changed.
#[derive(Clone, Debug)]
pub struct GitTreeResult {
    pub data: Vec<GitTreeFileMap>,
}

/// One delta as libgit2 hands it out: the status discriminant and the two
/// paths (empty when a side has none).
#[derive(Clone, Debug)]
pub struct RawDelta {
    pub status: u8,
    pub old_path: String,
    pub new_path: String,
}

/// The name of a delta status, by libgit2's stable discriminant order.
pub open spec fn spec_status_name(code: u8) -> Seq<char> {
    if code == 0 {
        "unmodified"@
    } else if code == 1 {
        "added"@
    } else if code == 2 {
        "deleted"@
    } else if code == 3 {
        "modified"@
    } else if code == 4 {
        "renamed"@
    } else if code == 5 {
        "copied"@
    } else if code == 6 {
        "ignored"@
    } else if code == 7 {
        "untracked"@
    } else if code == 8 {
        "typechange"@
    } else if code == 9 {
        "unreadable"@
    } else {
        "conflicted"@
    }
}

/// Names a delta status code.
pub fn status_name(code: u8) -> (r: &'static str)
    ensures
        r@ == spec_status_name(code),
{
    if code == 0 {
        "unmodified"
    } else if code == 1 {
        "added"
    } else if code == 2 {
        "deleted"
    } else if code == 3 {
        "modified"
    } else if code == 4 {
        "renamed"
    } else if code == 5 {
        "copied"
    } else if code == 6 {
        "ignored"
    } else if code == 7 {
        "untracked"
    } else if code == 8 {
        "typechange"
    } else if code == 9 {
        "unreadable"
    } else {
        "conflicted"
    }
}

/// Relies on git2::Repository::diff_tree_to_tree with the DiffDelta
/// accessors: per delta its status (cast to libgit2's discriminant, at most
/// ten) and both file paths, in diff order; a missing old side is the empty
/// tree.
#[verifier::external_body]
fn diff_deltas_raw(
    repo: &git2::Repository,
    old: Option<&git2::Tree>,
    new: &git2::Tree,
) -> (r: Result<Vec<RawDelta>, GitError>)
    ensures
        r is Ok ==> forall|i: int| 0 <= i < r->Ok_0@.len() ==> (#[trigger] r->Ok_0@[i]).status <= 10,
{
    let diff = repo.diff_tree_to_tree(old, Some(new), None).map_err(|_| GitError::Io)?;
    let mut out: Vec<RawDelta> = Vec::new();
    for d in diff.deltas() {
        out.push(RawDelta {
            status: d.status() as u8,
            old_path: d.old_file().path().and_then(|x| x.to_str()).unwrap_or("").to_string(),
            new_path: d.new_file().path().and_then(|x| x.to_str()).unwrap_or("").to_string(),
        });
    }
    Ok(out)
}

/// The delta rows mapped to the named view, row for row.
pub open spec fn diff_view_matches(r: Seq<GitTreeFileMap>, d: Seq<RawDelta>) -> bool {
    r.len() == d.len() && forall|i: int|
        0 <= i < d.len() ==> {
            &&& (#[trigger] r[i]).status@ == spec_status_name(d[i].status)
            &&& r[i].old_file is Some && r[i].old_file->Some_0.path@ == d[i].old_path@
            &&& r[i].new_file is Some && r[i].new_file->Some_0.path@ == d[i].new_path@
        }
}

/// Maps raw deltas to the named per-file view.
pub fn deltas_view(deltas: &Vec<RawDelta>) -> (r: Vec<GitTreeFileMap>)
    ensures
        diff_view_matches(r@, deltas@),
{
    let n = deltas.len();
    let mut out: Vec<GitTreeFileMap> = Vec::new();
    let mut i: usize = 0;
    while i < n
        invariant
            n == deltas@.len(),
            i <= n,
            out@.len() == i,
            diff_view_matches(out@, deltas@.subrange(0, i as int)),
        decreases n - i,
    {
        let d = &deltas[i];
        out.push(
            GitTreeFileMap {
                status: status_name(d.status).to_owned(),
                old_file: Some(GitTreeFile { path: d.old_path.clone() }),
                new_file: Some(GitTreeFile { path: d.new_path.clone() }),
            },
        );
        proof {
            assert(deltas@.subrange(0, i as int + 1).drop_last() =~= deltas@.subrange(
                0,
                i as int,
            ));
        }
        i = i + 1;
    }
    proof {
        assert(deltas@.subrange(0, n as int) =~= deltas@);
    }
    out
}

impl AppGit {
    /// The files the requested commit changed against its first parent
    /// (everything in the commit, for a parentless one), with named
    /// statuses.  A malformed commit id is NotFound before the repository
    /// is read; every returned row carries both file sides and a status
    /// named from the delta's discriminant.
    pub fn commit_tree(&self, param: GitTreeParam) -> (r: Result<GitTreeResult, GitError>)
        ensures
            (param.oid is Some && !spec_is_oid(param.oid->Some_0@)) ==> r == Err::<
                GitTreeResult,
                GitError,
            >(GitError::NotFound),
            r is Ok ==> forall|i: int|
                0 <= i < r->Ok_0.data@.len() ==> {
                    &&& (#[trigger] r->Ok_0.data@[i]).old_file is Some
                    &&& r->Ok_0.data@[i].new_file is Some
                    &&& exists|c: u8|
                        c <= 10 && (#[trigger] r->Ok_0.data@[i]).status@ == spec_status_name(c)
                },
            // the view maps one delta sequence row for row
            r is Ok ==> exists|ds: Seq<RawDelta>|
                (forall|i: int| 0 <= i < ds.len() ==> (#[trigger] ds[i]).status <= 10)
                    && #[trigger] diff_view_matches(r->Ok_0.data@, ds),
    {
        let head_l = match validate_head(&param.oid) {
            Ok(h) => h,
            Err(e) => {
                return Err(e);
            },
        };
        let repo = match self.git() {
            Ok(g) => g,
            Err(e) => {
                return Err(e);
            },
        };
        let commit_id = match head_l {
            Some(h) => h,
            None => match resolve_tip(&repo, &param.branch) {
                Ok(c) => c,
                Err(e) => {
                    return Err(e);
                },
            },
        };
        let parent = match crate::repo::commit_parent(&repo, &commit_id) {
            Ok(p) => p,
            Err(e) => {
                return Err(e);
            },
        };
        let new_tree = match crate::repo::commit_tree_obj(&repo, &commit_id) {
            Ok(t) => t,
            Err(e) => {
                return Err(e);
            },
        };
        let old_tree = match &parent {
            Some(p) => match crate::repo::commit_tree_obj(&repo, p) {
                Ok(t) => Some(t),
                Err(e) => {
                    return Err(e);
                },
            },
            None => None,
        };
        let deltas = match diff_deltas_raw(&repo, old_tree.as_ref(), &new_tree) {
            Ok(d) => d,
            Err(e) => {
                return Err(e);
            },
        };
        let view = deltas_view(&deltas);
        proof {
            assert(diff_view_matches(view@, deltas@));
            assert forall|i: int| 0 <= i < view@.len() implies {
                &&& (#[trigger] view@[i]).old_file is Some
                &&& view@[i].new_file is Some
                &&& exists|c: u8| c <= 10 && (#[trigger] view@[i]).status@ == spec_status_name(c)
            } by {
                let w = deltas@[i].status;
                assert(w <= 10);
                assert(view@[i].status@ == spec_status_name(w));
            }
        }
        Ok(GitTreeResult { data: view })
    }
}

} // verus!
