//! The branch list of a repository: one row per local branch.

use vstd::prelude::*;
use crate::error::GitError;
use crate::repo::AppGit;
use crate::strutil::spec_is_loid;

verus! {

/// One local branch: its name, its head commit id (empty for an unborn
/// reference), the tip commit's time in epoch seconds as decimal text, and
/// whether it is the repository's current head.
#[derive(Clone, Debug)]
pub struct GitBranchListResult {
    pub name: String,
    pub head: String,
    pub time: String,
    pub default: bool,
}

/// Relies on git2::Repository::branches over local branches with the
/// Branch::name, Reference::target, Reference::peel_to_commit and
/// Branch::is_head accessors: one row per local branch, in iteration order;
/// a head id, when present, is in canonical form.
#[verifier::external_body]
fn branch_rows(repo: &git2::Repository) -> (r: Result<Vec<GitBranchListResult>, GitError>)
    ensures
        r is Ok ==> forall|i: int|
            0 <= i < r->Ok_0@.len() ==> spec_is_loid(#[trigger] r->Ok_0@[i].head@)
                || r->Ok_0@[i].head@ =~= Seq::<char>::empty(),
{
    let mut out: Vec<GitBranchListResult> = Vec::new();
    for b in repo.branches(Some(git2::BranchType::Local)).map_err(|_| GitError::Io)? {
        let (br, _) = b.map_err(|_| GitError::Io)?;
        let name = br.name().ok().flatten().unwrap_or("").to_string();
        let head = br.get().target().map(|x| x.to_string()).unwrap_or_default();
        let time = br.get().peel_to_commit().map_err(|_| GitError::Io)?.time().seconds()
            .to_string();
        out.push(GitBranchListResult { name, head, time, default: br.is_head() });
    }
    Ok(out)
}

impl AppGit {
    /// Lists the repository's local branches with their heads and tip
    /// times.
    pub fn branch_list(&self) -> (r: Result<Vec<GitBranchListResult>, GitError>)
        ensures
            r is Ok ==> forall|i: int|
                0 <= i < r->Ok_0@.len() ==> spec_is_loid(#[trigger] r->Ok_0@[i].head@)
                    || r->Ok_0@[i].head@ =~= Seq::<char>::empty(),
    {
        let repo = match self.git() {
            Ok(g) => g,
            Err(e) => {
                return Err(e);
            },
        };
        branch_rows(&repo)
    }
}

} // verus!
