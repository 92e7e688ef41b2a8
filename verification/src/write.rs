//! The write path: validates the destination branch name, writes the byte
//! content as a content-addressed blob, builds a tree with the single entry
//! inserted over the branch tip's tree, and creates the commit that advances
//! (or creates) the branch.
//!
//! The branch reference is only touched by the final commit step: every
//! earlier failure leaves it unchanged, and orphaned blob or tree objects
//! are harmless in a content-addressed store.

use vstd::prelude::*;
use crate::correlate::GitTreeAuthors;
use crate::error::GitError;
use crate::repo::AppGit;
use crate::strutil::contains_nul;
use crate::strutil::ends_with;
use crate::strutil::has_nul;
use crate::strutil::spec_is_loid;

verus! {

/// One write request: the directory and file name of the entry, the
/// destination branch, the commit message, the raw content, and the two
/// identities.
#[derive(Clone, Debug)]
pub struct GitBlobInsertDataParam {
    pub path: String,
    pub file_name: String,
    pub branch: String,
    pub message: String,
    pub content: Vec<u8>,
    pub author: GitTreeAuthors,
    pub committer: GitTreeAuthors,
}

/// A character the reference store refuses anywhere in a branch name:
/// ASCII control characters and DEL, space, and git's special set.
pub open spec fn bad_ref_char(c: char) -> bool {
    c < ' ' || c == '\x7f' || c == ' ' || c == '~' || c == '^' || c == ':' || c == '?' || c == '*'
        || c == '[' || c == '\\'
}

/// A branch name the reference store accepts: non-empty, no leading dash,
/// no refused character, no leading or trailing slash, no trailing dot, no
/// component starting with a dot, not the bare `@`, and no `..`, `//`, `@{`
/// or trailing `.lock` anywhere.
pub open spec fn spec_branch_name_ok(s: Seq<char>) -> bool {
    &&& s.len() > 0
    &&& s[0] != '-'
    &&& s[0] != '/'
    &&& s[0] != '.'
    &&& s[s.len() - 1] != '/'
    &&& s[s.len() - 1] != '.'
    &&& !(s.len() == 1 && s[0] == '@')
    &&& !(exists|i: int| 0 <= i < s.len() && bad_ref_char(#[trigger] s[i]))
    &&& !(exists|i: int| 0 <= i < s.len() - 1 && #[trigger] s[i] == '.' && s[i + 1] == '.')
    &&& !(exists|i: int| 0 <= i < s.len() - 1 && #[trigger] s[i] == '/' && s[i + 1] == '/')
    &&& !(exists|i: int| 0 <= i < s.len() - 1 && #[trigger] s[i] == '/' && s[i + 1] == '.')
    &&& !(exists|i: int| 0 <= i < s.len() - 1 && #[trigger] s[i] == '@' && s[i + 1] == '{')
    &&& !(s.len() >= 5 && s.subrange(s.len() - 5, s.len() as int) =~= seq![
        '.',
        'l',
        'o',
        'c',
        'k',
    ])
}

/// Validates a destination branch name against the reference-naming rules.
pub fn branch_name_valid(name: &str) -> (r: bool)
    ensures
        r == spec_branch_name_ok(name@),
{
    proof {
        reveal_strlit(".lock");
        assert(".lock"@ =~= seq!['.', 'l', 'o', 'c', 'k']);
    }
    let n = name.unicode_len();
    if n == 0 {
        return false;
    }
    let first = name.get_char(0);
    if first == '-' || first == '/' || first == '.' {
        return false;
    }
    let last = name.get_char(n - 1);
    if last == '/' || last == '.' {
        return false;
    }
    if n == 1 && first == '@' {
        return false;
    }
    let mut i: usize = 0;
    while i < n
        invariant
            n == name@.len(),
            i <= n,
            forall|j: int| 0 <= j < i ==> !bad_ref_char(#[trigger] name@[j]),
            forall|j: int|
                0 <= j < i && j < n - 1 ==> !(#[trigger] name@[j] == '.' && name@[j + 1] == '.'),
            forall|j: int|
                0 <= j < i && j < n - 1 ==> !(#[trigger] name@[j] == '/' && name@[j + 1] == '/'),
            forall|j: int|
                0 <= j < i && j < n - 1 ==> !(#[trigger] name@[j] == '/' && name@[j + 1] == '.'),
            forall|j: int|
                0 <= j < i && j < n - 1 ==> !(#[trigger] name@[j] == '@' && name@[j + 1] == '{'),
        decreases n - i,
    {
        let c = name.get_char(i);
        let refused = c < ' ' || c == '\x7f' || c == ' ' || c == '~' || c == '^' || c == ':' || c
            == '?' || c == '*' || c == '[' || c == '\\';
        if refused {
            return false;
        }
        if i + 1 < n {
            let d = name.get_char(i + 1);
            if (c == '.' && d == '.') || (c == '/' && d == '/') || (c == '/' && d == '.') || (c
                == '@' && d == '{') {
                return false;
            }
        }
        i = i + 1;
    }
    if ends_with(name, ".lock") {
        return false;
    }
    true
}

/// The id of the blob object holding this content.  The store is
/// content-addressed: the id is a function of the bytes alone, so writing
/// identical content twice yields one id and stores one object.
pub uninterp spec fn blob_id_of(content: Seq<u8>) -> Seq<char>;

/// Writing identical byte content twice never creates two distinct blob
/// ids: the blob id depends on the content alone.
pub proof fn lemma_blob_id_idempotent(c1: Seq<u8>, c2: Seq<u8>)
    requires
        c1 == c2,
    ensures
        blob_id_of(c1) == blob_id_of(c2),
{
}

/// Relies on git2::Repository::blob: writes the bytes as a content-addressed
/// blob object and returns its id, which is a function of the content alone
/// (an object already present is not duplicated).
#[verifier::external_body]
fn blob_write(repo: &git2::Repository, content: &Vec<u8>) -> (r: Result<String, GitError>)
    ensures
        r is Ok ==> r->Ok_0@ == blob_id_of(content@),
        r is Ok ==> spec_is_loid(r->Ok_0@),
        r is Err ==> r->Err_0 == GitError::Io,
{
    match repo.blob(content.as_slice()) {
        Ok(oid) => Ok(oid.to_string()),
        Err(_) => Err(GitError::Io),
    }
}

/// Relies on git2::Repository::find_branch and git2::Reference::peel_to_commit:
/// the commit id of the branch tip, None when the branch does not exist, and
/// a repository error on any other lookup failure.
#[verifier::external_body]
fn branch_tip(repo: &git2::Repository, name: &String) -> (r: Result<Option<String>, GitError>)
    ensures
        r is Ok && r->Ok_0 is Some ==> spec_is_loid(r->Ok_0->Some_0@),
        r is Err ==> r->Err_0 == GitError::Io,
{
    match repo.find_branch(name.as_str(), git2::BranchType::Local) {
        Ok(b) => {
            let c = b.get().peel_to_commit().map_err(|_| GitError::Io)?;
            Ok(Some(c.id().to_string()))
        },
        Err(e) => {
            if e.code() == git2::ErrorCode::NotFound {
                Ok(None)
            } else {
                Err(GitError::Io)
            }
        },
    }
}

/// Relies on git2::Repository::set_head: points the repository's symbolic
/// HEAD at the given reference name; no branch reference moves.
#[verifier::external_body]
fn set_head_ref(repo: &git2::Repository, refname: &String) -> (r: Result<(), GitError>)
    ensures
        r is Err ==> r->Err_0 == GitError::Io,
{
    repo.set_head(refname.as_str()).map_err(|_| GitError::Io)
}

/// Relies on git2::build::TreeUpdateBuilder (upsert and create_updated):
/// builds a tree over the base tree (the empty tree when none is given)
/// with the entry at `rel_path` set to the blob in plain-file mode —
/// missing intermediate directories are created implicitly — writes the
/// tree object and returns its id; no reference moves.  The path must be
/// NUL-free: the binding's path conversion aborts on an interior NUL.
#[verifier::external_body]
fn build_tree(
    repo: &git2::Repository,
    base: Option<&git2::Tree>,
    rel_path: &String,
    blob_id: &String,
) -> (r: Result<String, GitError>)
    requires
        spec_is_loid(blob_id@),
        !has_nul(rel_path@),
    ensures
        r is Ok ==> spec_is_loid(r->Ok_0@),
        r is Err ==> r->Err_0 == GitError::Io,
{
    let blob = git2::Oid::from_str(blob_id.as_str()).map_err(|_| GitError::Io)?;
    let empty;
    let baseline = match base {
        Some(t) => t,
        None => {
            let oid = repo.treebuilder(None).and_then(|b| b.write()).map_err(|_| GitError::Io)?;
            empty = repo.find_tree(oid).map_err(|_| GitError::Io)?;
            &empty
        },
    };
    let mut ub = git2::build::TreeUpdateBuilder::new();
    ub.upsert(rel_path.as_str(), blob, git2::FileMode::Blob);
    ub.create_updated(repo, baseline).map(|o| o.to_string()).map_err(|_| GitError::Io)
}

#[verifier::external_type_specification]
#[verifier::external_body]
pub struct ExSignature<'a>(git2::Signature<'a>);

/// Relies on git2::Signature::new: an identity value from plain name, email
/// and epoch-second time.
#[verifier::external_body]
fn make_signature(a: &GitTreeAuthors) -> (r: Result<git2::Signature<'static>, GitError>)
    ensures
        r is Err ==> r->Err_0 == GitError::Io,
{
    let t = git2::Time::new(a.time, 0);
    git2::Signature::new(a.name.as_str(), a.email.as_str(), &t).map_err(|_| GitError::Io)
}

/// Relies on git2::Repository::commit: creates the commit over the given
/// tree with the given parent (none for a first commit), updates the named
/// reference to point at it, and returns its id.  This is the only write
/// step that moves a branch reference.
#[verifier::external_body]
fn create_commit(
    repo: &git2::Repository,
    refname: &String,
    tree_id: &String,
    parent: Option<&git2::Commit>,
    message: &String,
    author: &git2::Signature,
    committer: &git2::Signature,
) -> (r: Result<String, GitError>)
    requires
        spec_is_loid(tree_id@),
    ensures
        r is Ok ==> spec_is_loid(r->Ok_0@),
        r is Err ==> r->Err_0 == GitError::Io,
{
    let t = repo.find_tree(git2::Oid::from_str(tree_id.as_str()).map_err(|_| GitError::Io)?)
        .map_err(|_| GitError::Io)?;
    let oid = match parent {
        Some(pc) => repo.commit(Some(refname.as_str()), author, committer, message.as_str(), &t, &[pc]),
        None => repo.commit(Some(refname.as_str()), author, committer, message.as_str(), &t, &[]),
    };
    oid.map(|o| o.to_string()).map_err(|_| GitError::Io)
}

/// The tree path a write inserts at: `<dir>/<file>`, or the bare file name
/// when the directory is the root.
pub open spec fn spec_write_rel_path(path: Seq<char>, file_name: Seq<char>) -> Seq<char> {
    if path.len() == 0 {
        file_name
    } else {
        path.push('/') + file_name
    }
}

impl AppGit {
    /// Writes the content as a blob, inserts it into a tree over the branch
    /// tip's tree (the empty tree when the branch is new, in which case the
    /// symbolic head is pointed at the new branch; intermediate directories
    /// are created implicitly), creates the commit and advances the branch.
    /// An invalid branch name, or a NUL in the destination path — the only
    /// Validation outcomes — are rejected before anything is written; any
    /// later failure leaves every branch reference unchanged, because only
    /// the final commit step moves one.
    #[verifier::rlimit(60)]
    pub fn insert_blob(&self, param: GitBlobInsertDataParam) -> (r: Result<String, GitError>)
        ensures
            (!spec_branch_name_ok(param.branch@) || has_nul(
                spec_write_rel_path(param.path@, param.file_name@),
            )) <==> r == Err::<String, GitError>(GitError::Validation),
            r is Ok ==> spec_is_loid(r->Ok_0@),
    {
        if !branch_name_valid(param.branch.as_str()) {
            return Err(GitError::Validation);
        }
        let rel_path = if param.path.as_str().is_empty() {
            param.file_name.clone()
        } else {
            let mut p = param.path.clone();
            p.append("/");
            p.append(param.file_name.as_str());
            proof {
                reveal_strlit("/");
                assert(p@ =~= param.path@.push('/') + param.file_name@);
            }
            p
        };
        proof {
            assert(rel_path@ == spec_write_rel_path(param.path@, param.file_name@));
        }
        if contains_nul(rel_path.as_str()) {
            return Err(GitError::Validation);
        }
        let repo = match self.git() {
            Ok(g) => g,
            Err(e) => {
                return Err(e);
            },
        };
        let blob_id = match blob_write(&repo, &param.content) {
            Ok(b) => b,
            Err(e) => {
                return Err(e);
            },
        };
        let tip = match branch_tip(&repo, &param.branch) {
            Ok(t) => t,
            Err(e) => {
                return Err(e);
            },
        };
        let mut refname = "refs/heads/".to_owned();
        refname.append(param.branch.as_str());
        if tip.is_none() {
            match set_head_ref(&repo, &refname) {
                Ok(_) => {},
                Err(e) => {
                    return Err(e);
                },
            }
        }
        let parent_obj = match &tip {
            Some(p) => match crate::repo::find_commit_obj(&repo, p) {
                Ok(c) => Some(c),
                Err(e) => {
                    return Err(e);
                },
            },
            None => None,
        };
        let base_tree = match &tip {
            Some(p) => match crate::repo::commit_tree_obj(&repo, p) {
                Ok(t) => Some(t),
                Err(e) => {
                    return Err(e);
                },
            },
            None => None,
        };
        let tree_id = match build_tree(&repo, base_tree.as_ref(), &rel_path, &blob_id) {
            Ok(t) => t,
            Err(e) => {
                return Err(e);
            },
        };
        let author_sig = match make_signature(&param.author) {
            Ok(s) => s,
            Err(e) => {
                return Err(e);
            },
        };
        let committer_sig = match make_signature(&param.committer) {
            Ok(s) => s,
            Err(e) => {
                return Err(e);
            },
        };
        match create_commit(
            &repo,
            &refname,
            &tree_id,
            parent_obj.as_ref(),
            &param.message,
            &author_sig,
            &committer_sig,
        ) {
            Ok(id) => Ok(id),
            Err(e) => Err(e),
        }
    }
}

} // verus!
