//! The tree lister: the immediate children of one directory at a commit.
//!
//! A commit's full recursive tree is flattened by a trusted pre-order walk;
//! the verified selection keeps exactly the entries whose parent directory
//! equals the requested (normalized) path, classified as `tree` or `blob`.
//! An unresolvable or empty directory gives an empty listing, not an error.

use vstd::prelude::*;
use crate::error::GitError;
use crate::repo::AppGit;
use crate::repo::resolve_tip;
use crate::strutil::is_oid;
use crate::strutil::lower_hex;
use crate::strutil::normalize_dir;
use crate::strutil::spec_normalize;
use crate::strutil::spec_is_loid;
use crate::strutil::spec_is_oid;
use crate::strutil::str_eq;

verus! {

/// Listing request: an explicit commit id or a branch (the current head
/// when both are absent), and the directory to list (root = empty string).
#[derive(Clone, Debug)]
pub struct StateTreeParam {
    pub head: Option<String>,
    pub branch: Option<String>,
    pub path: String,
}

/// One listed entry: its parent path, its own name, and its kind
/// (`"tree"` for a subdirectory, `"blob"` for a file).
#[derive(Clone, Debug)]
pub struct GitTreeStateFileMapMiddleData {
    pub path: String,
    pub name: String,
    pub rtype: String,
}

impl GitTreeStateFileMapMiddleData {
    /// The entry's full path: parent path followed by its name.
    pub fn to_path(&self) -> (r: String)
        ensures
            r@ == self.path@ + self.name@,
    {
        self.path.clone().concat(self.name.as_str())
    }
}

/// The kind of an object met by the recursive tree walk.
#[derive(Clone, Copy, Debug, PartialEq, Eq, Structural)]
pub enum TreeEntryKind {
    Tree,
    Blob,
    Other,
}

/// One entry of the flattened recursive tree: the walk's parent-directory
/// path, the entry name, and its kind.
#[derive(Clone, Debug)]
pub struct RawTreeEntry {
    pub root: String,
    pub name: String,
    pub kind: TreeEntryKind,
}

/// The entry sits directly in `dir` and is a file or a subdirectory.
pub open spec fn entry_selected(e: RawTreeEntry, dir: Seq<char>) -> bool {
    e.root@ == dir && (e.kind == TreeEntryKind::Tree || e.kind == TreeEntryKind::Blob)
}

/// The walk entries that the listing keeps, in walk order.
pub open spec fn spec_dir_entries(entries: Seq<RawTreeEntry>, dir: Seq<char>) -> Seq<RawTreeEntry>
    decreases entries.len(),
{
    if entries.len() == 0 {
        Seq::empty()
    } else {
        let rest = spec_dir_entries(entries.drop_last(), dir);
        if entry_selected(entries.last(), dir) {
            rest.push(entries.last())
        } else {
            rest
        }
    }
}

/// The listing result matches the selected entries item for item.
pub open spec fn listing_matches(
    r: Seq<GitTreeStateFileMapMiddleData>,
    sel: Seq<RawTreeEntry>,
) -> bool {
    r.len() == sel.len() && forall|i: int|
        0 <= i < sel.len() ==> {
            &&& (#[trigger] r[i]).path@ == sel[i].root@
            &&& r[i].name@ == sel[i].name@
            &&& (sel[i].kind == TreeEntryKind::Tree ==> r[i].rtype@ == "tree"@)
            &&& (sel[i].kind == TreeEntryKind::Blob ==> r[i].rtype@ == "blob"@)
        }
}

/// Keeps the walk entries that sit directly in `dir` and classifies each as
/// `tree` or `blob`.
pub fn list_dir(entries: &Vec<RawTreeEntry>, dir: &str) -> (r: Vec<GitTreeStateFileMapMiddleData>)
    ensures
        listing_matches(r@, spec_dir_entries(entries@, dir@)),
{
    let n = entries.len();
    let mut out: Vec<GitTreeStateFileMapMiddleData> = Vec::new();
    let mut i: usize = 0;
    while i < n
        invariant
            n == entries@.len(),
            i <= n,
            listing_matches(out@, spec_dir_entries(entries@.subrange(0, i as int), dir@)),
        decreases n - i,
    {
        proof {
            assert(entries@.subrange(0, i as int + 1).drop_last() =~= entries@.subrange(
                0,
                i as int,
            ));
            assert(entries@.subrange(0, i as int + 1).last() == entries@[i as int]);
        }
        let e = &entries[i];
        let keep = match e.kind {
            TreeEntryKind::Tree => true,
            TreeEntryKind::Blob => true,
            TreeEntryKind::Other => false,
        };
        if keep && str_eq(e.root.as_str(), dir) {
            let rtype = match e.kind {
                TreeEntryKind::Tree => "tree".to_owned(),
                _ => "blob".to_owned(),
            };
            out.push(
                GitTreeStateFileMapMiddleData {
                    path: e.root.clone(),
                    name: e.name.clone(),
                    rtype,
                },
            );
        }
        i = i + 1;
    }
    proof {
        assert(entries@.subrange(0, n as int) =~= entries@);
    }
    out
}

/// Every kept entry sits directly in the requested directory.
pub proof fn lemma_dir_entries_selected(entries: Seq<RawTreeEntry>, dir: Seq<char>)
    ensures
        forall|i: int|
            0 <= i < spec_dir_entries(entries, dir).len() ==> entry_selected(
                #[trigger] spec_dir_entries(entries, dir)[i],
                dir,
            ),
    decreases entries.len(),
{
    if entries.len() > 0 {
        lemma_dir_entries_selected(entries.drop_last(), dir);
        let sel = spec_dir_entries(entries, dir);
        let sub = spec_dir_entries(entries.drop_last(), dir);
        assert forall|i: int| 0 <= i < sel.len() implies entry_selected(#[trigger] sel[i], dir) by {
            if i < sub.len() {
                assert(sel[i] == sub[i]);
            }
        }
    }
}

/// A directory with no matching entries yields the empty listing.
pub proof fn lemma_list_dir_empty(entries: Seq<RawTreeEntry>, dir: Seq<char>)
    requires
        forall|i: int| 0 <= i < entries.len() ==> !entry_selected(#[trigger] entries[i], dir),
    ensures
        spec_dir_entries(entries, dir) == Seq::<RawTreeEntry>::empty(),
    decreases entries.len(),
{
    if entries.len() > 0 {
        assert(forall|i: int|
            0 <= i < entries.len() - 1 ==> entries.drop_last()[i] == entries[i]);
        lemma_list_dir_empty(entries.drop_last(), dir);
        assert(entries.last() == entries[entries.len() - 1]);
    }
}

/// Relies on git2::Tree::walk over the commit's tree in pre-order: yields
/// each entry with the path of the directory it sits in, its name and its
/// object kind, in walk order.
#[verifier::external_body]
pub(crate) fn walk_tree_entries(repo: &git2::Repository, commit_id: &String) -> (r: Result<
    Vec<RawTreeEntry>,
    GitError,
>)
    requires
        spec_is_loid(commit_id@),
{
    let tree = crate::repo::commit_tree_obj(repo, commit_id)?;
    let mut out: Vec<RawTreeEntry> = Vec::new();
    tree.walk(git2::TreeWalkMode::PreOrder, |root, entry| {
        let kind = match entry.kind() {
            Some(git2::ObjectType::Tree) => TreeEntryKind::Tree,
            Some(git2::ObjectType::Blob) => TreeEntryKind::Blob,
            _ => TreeEntryKind::Other,
        };
        let name = entry.name().unwrap_or("?").to_string();
        out.push(RawTreeEntry { root: root.to_string(), name, kind });
        git2::TreeWalkResult::Ok
    }).ok();
    Ok(out)
}

/// Validates an optional explicit head id before any repository access: a
/// malformed id is rejected as NotFound, a well-formed one is canonicalized.
pub(crate) fn validate_head(head: &Option<String>) -> (r: Result<Option<String>, GitError>)
    ensures
        (head is Some && !spec_is_oid(head->Some_0@)) <==> r == Err::<Option<String>, GitError>(
            GitError::NotFound,
        ),
        r is Ok ==> (r->Ok_0 is Some <==> head is Some),
        r is Ok && r->Ok_0 is Some ==> spec_is_loid(r->Ok_0->Some_0@),
{
    match head {
        Some(h) => {
            if !is_oid(h.as_str()) {
                Err(GitError::NotFound)
            } else {
                Ok(Some(lower_hex(h.as_str())))
            }
        },
        None => Ok(None),
    }
}

impl AppGit {
    /// Lists the immediate children of the requested directory at the
    /// requested commit.  The directory path is normalized first; entries
    /// deeper than one level are never expanded, and every returned entry
    /// sits directly in the normalized directory, classified as a tree or
    /// a blob.
    pub fn state_tree(&self, param: StateTreeParam) -> (r: Result<
        Vec<GitTreeStateFileMapMiddleData>,
        GitError,
    >)
        ensures
            (param.head is Some && !spec_is_oid(param.head->Some_0@)) ==> r == Err::<
                Vec<GitTreeStateFileMapMiddleData>,
                GitError,
            >(GitError::NotFound),
            r is Ok ==> forall|i: int|
                0 <= i < r->Ok_0@.len() ==> (#[trigger] r->Ok_0@[i]).path@ == spec_normalize(
                    param.path@,
                ) && (r->Ok_0@[i].rtype@ == "tree"@ || r->Ok_0@[i].rtype@ == "blob"@),
            // the listing is the one-level selection out of one flattened
            // recursive tree at the normalized directory
            r is Ok ==> exists|ents: Seq<RawTreeEntry>|
                listing_matches(
                    r->Ok_0@,
                    #[trigger] spec_dir_entries(ents, spec_normalize(param.path@)),
                ),
    {
        let head_l = match validate_head(&param.head) {
            Ok(h) => h,
            Err(e) => {
                return Err(e);
            },
        };
        let repo = match self.git() {
            Ok(g) => g,
            Err(e) => {
                return Err(e);
            },
        };
        let commit_id = match head_l {
            Some(h) => h,
            None => match resolve_tip(&repo, &param.branch) {
                Ok(c) => c,
                Err(e) => {
                    return Err(e);
                },
            },
        };
        let entries = match walk_tree_entries(&repo, &commit_id) {
            Ok(v) => v,
            Err(e) => {
                return Err(e);
            },
        };
        let dir = normalize_dir(param.path.as_str());
        let listing = list_dir(&entries, dir.as_str());
        proof {
            assert(listing_matches(
                listing@,
                spec_dir_entries(entries@, spec_normalize(param.path@)),
            ));
            lemma_dir_entries_selected(entries@, dir@);
            let sel = spec_dir_entries(entries@, dir@);
            assert forall|i: int| 0 <= i < listing@.len() implies (
            #[trigger] listing@[i]).path@ == spec_normalize(param.path@) && (listing@[i].rtype@
                == "tree"@ || listing@[i].rtype@ == "blob"@) by {
                assert(entry_selected(sel[i], dir@));
                assert(listing@[i].path@ == sel[i].root@);
            }
        }
        Ok(listing)
    }
}

} // verus!
