//! The repository handle: a bare repository at a path derived from the
//! forge's data root, an owner and a repository name.

use vstd::prelude::*;
use crate::error::GitError;

verus! {

#[verifier::external_type_specification]
#[verifier::external_body]
pub struct ExRepository(git2::Repository);

/// Handle on one bare repository on disk.
#[derive(Clone, Debug)]
pub struct AppGit {
    pub path_buf: String,
}

impl AppGit {
    /// Joins the configured data root with a repository-relative path.  The
    /// root is an explicit argument so that every caller (and every test)
    /// names its own storage directory.
    pub fn new(root: &str, path_buf: &str) -> (r: Self)
        ensures
            r.path_buf@ == root@.push('/') + path_buf@,
    {
        let mut joined = root.to_owned();
        joined.append("/");
        joined.append(path_buf);
        proof {
            reveal_strlit("/");
            assert(joined@ =~= root@.push('/') + path_buf@);
        }
        AppGit { path_buf: joined }
    }

    /// Relies on git2::Repository::open_bare: succeeds exactly when the path
    /// holds an openable bare repository; a failure with code NotFound is
    /// reported as such, any other failure as an I/O error.
    #[verifier::external_body]
    pub fn git(&self) -> (r: Result<git2::Repository, GitError>)
        ensures
            r is Err ==> r->Err_0 == GitError::NotFound || r->Err_0 == GitError::Io,
    {
        match git2::Repository::open_bare(self.path_buf.as_str()) {
            Ok(r) => Ok(r),
            Err(e) => Err(
                if e.code() == git2::ErrorCode::NotFound {
                    GitError::NotFound
                } else {
                    GitError::Io
                },
            ),
        }
    }

    /// Initializes a bare repository at the handle's path, creating missing
    /// path components.  A path that already holds a repository is refused
    /// as Conflict — the sole Conflict outcome, decided by the same check
    /// `repo_exists` makes — and is never silently re-initialized; any
    /// other failure is an I/O error.
    pub fn init(&self) -> (r: Result<(), GitError>)
        ensures
            r is Err ==> r->Err_0 == GitError::Conflict || r->Err_0 == GitError::Io,
    {
        if self.repo_exists() {
            return Err(GitError::Conflict);
        }
        repo_init_bare(&self.path_buf)
    }

    /// The handle names a usable repository: the path exists on disk and it
    /// opens as a valid bare repository.  A dangling directory counts as
    /// absent and is never repaired here.
    pub fn repo_exists(&self) -> bool {
        if !path_exists(&self.path_buf) {
            return false;
        }
        match self.git() {
            Ok(_) => true,
            Err(_) => false,
        }
    }
}

/// The repository-relative storage path derived from owner and name:
/// `<owner>/<name>`.
pub open spec fn spec_repo_rel_path(owner: Seq<char>, name: Seq<char>) -> Seq<char> {
    owner.push('/') + name
}

/// Derives the storage path of a repository from its owner and its name;
/// under one data root it is unique per (owner, name) pair.
pub fn repo_rel_path(owner: &str, name: &str) -> (r: String)
    ensures
        r@ == spec_repo_rel_path(owner@, name@),
{
    let mut joined = owner.to_owned();
    joined.append("/");
    joined.append(name);
    proof {
        reveal_strlit("/");
        assert(joined@ =~= owner@.push('/') + name@);
    }
    joined
}

/// The derived storage path is unique: two (owner, name) pairs with
/// slash-free owners collide only when owner and name both agree.
pub proof fn lemma_repo_path_unique(o1: Seq<char>, n1: Seq<char>, o2: Seq<char>, n2: Seq<char>)
    requires
        forall|i: int| 0 <= i < o1.len() ==> #[trigger] o1[i] != '/',
        forall|i: int| 0 <= i < o2.len() ==> #[trigger] o2[i] != '/',
        forall|i: int| 0 <= i < n1.len() ==> #[trigger] n1[i] != '/',
        forall|i: int| 0 <= i < n2.len() ==> #[trigger] n2[i] != '/',
        spec_repo_rel_path(o1, n1) == spec_repo_rel_path(o2, n2),
    ensures
        o1 == o2,
        n1 == n2,
{
    let p = spec_repo_rel_path(o1, n1);
    assert(p[o1.len() as int] == '/');
    assert(p[o2.len() as int] == '/');
    if o1.len() < o2.len() {
        assert(o2[o1.len() as int] == spec_repo_rel_path(o2, n2)[o1.len() as int]);
        assert(o2[o1.len() as int] == '/');
        assert(false);
    }
    if o2.len() < o1.len() {
        assert(o1[o2.len() as int] == spec_repo_rel_path(o1, n1)[o2.len() as int]);
        assert(o1[o2.len() as int] == '/');
        assert(false);
    }
    assert(o1.len() == o2.len());
    assert forall|i: int| 0 <= i < o1.len() implies o1[i] == o2[i] by {
        assert((o1.push('/') + n1)[i] == o1.push('/')[i]);
        assert((o2.push('/') + n2)[i] == o2.push('/')[i]);
    }
    assert(o1 =~= o2);
    assert((o1.push('/') + n1).len() == o1.len() + 1 + n1.len());
    assert((o2.push('/') + n2).len() == o2.len() + 1 + n2.len());
    assert(n1.len() == n2.len());
    assert forall|i: int| 0 <= i < n1.len() implies n1[i] == n2[i] by {
        assert((o1.push('/') + n1)[o1.len() + 1 + i] == n1[i]);
        assert((o2.push('/') + n2)[o2.len() + 1 + i] == n2[i]);
    }
    assert(n1 =~= n2);
}

/// Relies on std::path::Path::exists for the path-presence half of the
/// repository-existence check.
#[verifier::external_body]
fn path_exists(p: &String) -> bool {
    std::path::Path::new(p.as_str()).exists()
}

/// Relies on git2::Repository::init_bare: creates the repository directory
/// (and missing parents, per its default MKPATH option) and initializes a
/// bare repository there.
#[verifier::external_body]
fn repo_init_bare(p: &String) -> (r: Result<(), GitError>)
    ensures
        r is Err ==> r->Err_0 == GitError::Io,
{
    match git2::Repository::init_bare(p.as_str()) {
        Ok(_) => Ok(()),
        Err(_) => Err(GitError::Io),
    }
}

/// Resolves the repository's symbolic head to a commit id.
///
/// Relies on git2::Repository::head and git2::Reference::target; the
/// returned id is the forty-digit lower-case hex form printed by git2::Oid.
#[verifier::external_body]
pub(crate) fn repo_head_target(repo: &git2::Repository) -> (r: Result<String, GitError>)
    ensures
        r is Ok ==> crate::strutil::spec_is_loid(r->Ok_0@),
{
    let head = repo.head().map_err(|_| GitError::NotFound)?;
    match head.target() {
        Some(oid) => Ok(oid.to_string()),
        None => Err(GitError::NotFound),
    }
}

/// Resolves a local branch name to the commit id of its tip.
///
/// Relies on git2::Repository::find_branch and git2::Reference::target; a
/// missing branch is NotFound, and the returned id is the forty-digit
/// lower-case hex form printed by git2::Oid.
#[verifier::external_body]
pub(crate) fn repo_branch_target(repo: &git2::Repository, name: &String) -> (r: Result<
    String,
    GitError,
>)
    ensures
        r is Ok ==> crate::strutil::spec_is_loid(r->Ok_0@),
{
    let miss = |e: git2::Error| if e.code() == git2::ErrorCode::NotFound {
        GitError::NotFound
    } else {
        GitError::Io
    };
    let branch = repo.find_branch(name.as_str(), git2::BranchType::Local).map_err(miss)?;
    match branch.into_reference().target() {
        Some(oid) => Ok(oid.to_string()),
        None => Err(GitError::NotFound),
    }
}

#[verifier::external_type_specification]
#[verifier::external_body]
pub struct ExTree<'a>(git2::Tree<'a>);

#[verifier::external_type_specification]
#[verifier::external_body]
pub struct ExCommit<'a>(git2::Commit<'a>);

/// Relies on git2::Repository::find_commit: looks a commit object up by its
/// canonical id.
#[verifier::external_body]
pub(crate) fn find_commit_obj<'r>(repo: &'r git2::Repository, id: &String) -> (r: Result<
    git2::Commit<'r>,
    GitError,
>)
    requires
        crate::strutil::spec_is_loid(id@),
    ensures
        r is Err ==> r->Err_0 == GitError::NotFound,
{
    let oid = git2::Oid::from_str(id.as_str()).map_err(|_| GitError::NotFound)?;
    repo.find_commit(oid).map_err(|_| GitError::NotFound)
}

/// Relies on git2::Commit::parent_count and git2::Commit::parent: the id of
/// the first parent in canonical form, or None for a parentless commit.
#[verifier::external_body]
pub(crate) fn commit_parent(repo: &git2::Repository, id: &String) -> (r: Result<
    Option<String>,
    GitError,
>)
    requires
        crate::strutil::spec_is_loid(id@),
    ensures
        r is Ok && r->Ok_0 is Some ==> crate::strutil::spec_is_loid(r->Ok_0->Some_0@),
{
    let c = find_commit_obj(repo, id)?;
    if c.parent_count() == 0 {
        Ok(None)
    } else {
        Ok(Some(c.parent(0).map_err(|_| GitError::Io)?.id().to_string()))
    }
}

/// Relies on git2::Commit::tree: the tree object of a commit; an unreadable
/// tree is an I/O error.
#[verifier::external_body]
pub(crate) fn commit_tree_obj<'r>(repo: &'r git2::Repository, id: &String) -> (r: Result<
    git2::Tree<'r>,
    GitError,
>)
    requires
        crate::strutil::spec_is_loid(id@),
    ensures
        r is Err ==> r->Err_0 == GitError::NotFound || r->Err_0 == GitError::Io,
{
    find_commit_obj(repo, id)?.tree().map_err(|_| GitError::Io)
}

/// Resolves the head commit for an operation: an explicit branch name when
/// given, otherwise the repository's current head.
pub(crate) fn resolve_tip(repo: &git2::Repository, branch: &Option<String>) -> (r: Result<
    String,
    GitError,
>)
    ensures
        r is Ok ==> crate::strutil::spec_is_loid(r->Ok_0@),
{
    match branch {
        Some(name) => repo_branch_target(repo, name),
        None => repo_head_target(repo),
    }
}

} // verus!
