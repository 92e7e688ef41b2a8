//! The history correlator: for every entry of a directory listing, the most
//! recent commit that last modified it (or, for a subdirectory, anything in
//! its subtree).
//!
//! History is walked newest to oldest along first parents only; each step
//! diffs a commit against its parent (the root diff for a parentless
//! commit).  An entry is credited at most once — first touch wins — and the
//! walk stops as soon as every entry is credited.  Commit records and
//! author identities are stored once and referenced by index.

use vstd::prelude::*;
use crate::commits::lookup_commit;
use crate::error::GitError;
use crate::repo::AppGit;
use crate::repo::resolve_tip;
use crate::repo::commit_parent;
use crate::repo::commit_tree_obj;
use crate::strutil::seq_contains_str;
use crate::strutil::spec_is_loid;
use crate::strutil::spec_is_oid;
use crate::strutil::spec_starts_with;
use crate::strutil::starts_with;
use crate::strutil::str_eq;
use crate::strutil::vec_contains_str;
use crate::tree::GitTreeStateFileMapMiddleData;
use crate::tree::StateTreeParam;
use crate::tree::validate_head;

verus! {

/// One author or committer identity; identities are deduplicated by the
/// (name, email) pair within one correlation run.
#[derive(Clone, Debug)]
pub struct GitTreeAuthors {
    pub name: String,
    pub email: String,
    pub time: i64,
}

/// One stored commit record, referenced by index from the credited entries.
#[derive(Clone, Debug)]
pub struct GitTreeStateFileMap {
    pub index: usize,
    pub author: usize,
    pub committer: usize,
    pub message: String,
    pub timestamp: i64,
    pub oid: String,
}

/// The correlation result: the deduplicated commit records, the credited
/// (entry, record-index) pairs, and the deduplicated identities.
#[derive(Clone, Debug)]
pub struct StateTreeResult {
    pub data: Vec<GitTreeStateFileMap>,
    pub file: Vec<(GitTreeStateFileMapMiddleData, usize)>,
    pub authors: Vec<GitTreeAuthors>,
}

/// Two identities are the same author: equal name and equal email.
pub open spec fn author_matches(a: GitTreeAuthors, b: GitTreeAuthors) -> bool {
    a.name@ == b.name@ && a.email@ == b.email@
}

/// The index of the first stored identity matching `a`, or the table length
/// when none matches.
pub open spec fn author_index(s: Seq<GitTreeAuthors>, a: GitTreeAuthors) -> int
    decreases s.len(),
{
    if s.len() == 0 {
        0
    } else if author_matches(s.first(), a) {
        0
    } else {
        1 + author_index(s.drop_first(), a)
    }
}

/// The identity is already stored.
pub open spec fn has_author(s: Seq<GitTreeAuthors>, a: GitTreeAuthors) -> bool {
    author_index(s, a) < s.len()
}

proof fn lemma_author_index_at(s: Seq<GitTreeAuthors>, a: GitTreeAuthors, i: int)
    requires
        0 <= i <= s.len(),
        forall|j: int| 0 <= j < i ==> !author_matches(#[trigger] s[j], a),
        i < s.len() ==> author_matches(s[i], a),
    ensures
        author_index(s, a) == i,
    decreases i, s.len(),
{
    if s.len() == 0 {
    } else if i == 0 {
        if s.len() > 0 && !author_matches(s.first(), a) {
            // i == 0 < s.len() would contradict the hypothesis
            assert(author_matches(s[0], a));
        }
    } else {
        assert(!author_matches(s[0], a));
        assert(forall|j: int|
            0 <= j < i - 1 ==> s.drop_first()[j] == s[j + 1] && !author_matches(
                #[trigger] s.drop_first()[j],
                a,
            ));
        if i < s.len() {
            assert(s.drop_first()[i - 1] == s[i]);
        }
        lemma_author_index_at(s.drop_first(), a, i - 1);
    }
}

/// The identity found at the stored index matches the probe.
pub proof fn lemma_author_index_found(s: Seq<GitTreeAuthors>, a: GitTreeAuthors)
    requires
        has_author(s, a),
    ensures
        0 <= author_index(s, a) < s.len(),
        author_matches(s[author_index(s, a)], a),
    decreases s.len(),
{
    if s.len() > 0 && !author_matches(s.first(), a) {
        lemma_author_index_found(s.drop_first(), a);
        assert(s.drop_first()[author_index(s.drop_first(), a)] == s[author_index(s, a)]);
    }
}

/// Author deduplication: identities sharing the (name, email) pair are
/// assigned one index; identities that differ (for instance an identical
/// name with a different email) are assigned two distinct indices.
pub proof fn lemma_author_dedup(s: Seq<GitTreeAuthors>, a: GitTreeAuthors, b: GitTreeAuthors)
    ensures
        author_matches(a, b) ==> author_index(s, a) == author_index(s, b),
        has_author(s, a) && has_author(s, b) && !author_matches(a, b) ==> author_index(s, a)
            != author_index(s, b),
    decreases s.len(),
{
    if author_matches(a, b) {
        if s.len() > 0 {
            lemma_author_dedup(s.drop_first(), a, b);
        }
    } else {
        if has_author(s, a) && has_author(s, b) {
            lemma_author_index_found(s, a);
            lemma_author_index_found(s, b);
            if author_index(s, a) == author_index(s, b) {
                assert(author_matches(s[author_index(s, a)], a));
                assert(author_matches(s[author_index(s, a)], b));
                assert(false);
            }
        }
    }
}

/// Content equality of two commit records.
pub open spec fn fm_eq(a: GitTreeStateFileMap, b: GitTreeStateFileMap) -> bool {
    a.index == b.index && a.author == b.author && a.committer == b.committer && a.message@
        == b.message@ && a.timestamp == b.timestamp && a.oid@ == b.oid@
}

/// The index of the first stored record with the same content, or the table
/// length when none matches.
pub open spec fn fm_index(s: Seq<GitTreeStateFileMap>, x: GitTreeStateFileMap) -> int
    decreases s.len(),
{
    if s.len() == 0 {
        0
    } else if fm_eq(s.first(), x) {
        0
    } else {
        1 + fm_index(s.drop_first(), x)
    }
}

/// The record is already stored.
pub open spec fn has_fm(s: Seq<GitTreeStateFileMap>, x: GitTreeStateFileMap) -> bool {
    fm_index(s, x) < s.len()
}

proof fn lemma_fm_index_at(s: Seq<GitTreeStateFileMap>, x: GitTreeStateFileMap, i: int)
    requires
        0 <= i <= s.len(),
        forall|j: int| 0 <= j < i ==> !fm_eq(#[trigger] s[j], x),
        i < s.len() ==> fm_eq(s[i], x),
    ensures
        fm_index(s, x) == i,
    decreases i, s.len(),
{
    if s.len() == 0 {
    } else if i == 0 {
        if s.len() > 0 && !fm_eq(s.first(), x) {
            assert(fm_eq(s[0], x));
        }
    } else {
        assert(!fm_eq(s[0], x));
        assert(forall|j: int|
            0 <= j < i - 1 ==> s.drop_first()[j] == s[j + 1] && !fm_eq(
                #[trigger] s.drop_first()[j],
                x,
            ));
        if i < s.len() {
            assert(s.drop_first()[i - 1] == s[i]);
        }
        lemma_fm_index_at(s.drop_first(), x, i - 1);
    }
}

/// The record found at the stored index matches the probe.
proof fn lemma_fm_index_found(s: Seq<GitTreeStateFileMap>, x: GitTreeStateFileMap)
    requires
        has_fm(s, x),
    ensures
        0 <= fm_index(s, x) < s.len(),
        fm_eq(s[fm_index(s, x)], x),
    decreases s.len(),
{
    if s.len() > 0 && !fm_eq(s.first(), x) {
        lemma_fm_index_found(s.drop_first(), x);
        assert(s.drop_first()[fm_index(s.drop_first(), x)] == s[fm_index(s, x)]);
    }
}

/// A record with matching content somewhere in the table means the probe
/// is found.
proof fn lemma_fm_has(s: Seq<GitTreeStateFileMap>, x: GitTreeStateFileMap, j: int)
    requires
        0 <= j < s.len(),
        fm_eq(s[j], x),
    ensures
        has_fm(s, x),
    decreases s.len(),
{
    if !fm_eq(s.first(), x) {
        assert(j > 0);
        assert(s.drop_first()[j - 1] == s[j]);
        lemma_fm_has(s.drop_first(), x, j - 1);
    }
}

impl GitTreeAuthors {
    /// A field-for-field copy whose equality to the source is known.
    pub fn duplicate(&self) -> (r: Self)
        ensures
            r == *self,
    {
        GitTreeAuthors { name: self.name.clone(), email: self.email.clone(), time: self.time }
    }
}

impl GitTreeStateFileMap {
    /// A field-for-field copy whose equality to the source is known.
    pub fn duplicate(&self) -> (r: Self)
        ensures
            r == *self,
    {
        GitTreeStateFileMap {
            index: self.index,
            author: self.author,
            committer: self.committer,
            message: self.message.clone(),
            timestamp: self.timestamp,
            oid: self.oid.clone(),
        }
    }
}

impl StateTreeResult {
    /// Stores an identity once: a stored identity with the same (name,
    /// email) keeps its index, a new one is appended.
    pub fn insert_authors(&mut self, authors: GitTreeAuthors) -> (r: usize)
        ensures
            final(self).data == old(self).data,
            final(self).file == old(self).file,
            has_author(old(self).authors@, authors) ==> final(self).authors == old(self).authors
                && r == author_index(old(self).authors@, authors),
            !has_author(old(self).authors@, authors) ==> final(self).authors@ == old(
                self,
            ).authors@.push(authors) && r == old(self).authors@.len(),
            r < final(self).authors@.len(),
            r == author_index(final(self).authors@, authors),
    {
        let n = self.authors.len();
        let mut i: usize = 0;
        while i < n
            invariant
                n == self.authors@.len(),
                i <= n,
                *self == *old(self),
                forall|j: int| 0 <= j < i ==> !author_matches(#[trigger] self.authors@[j], authors),
            decreases n - i,
        {
            if self.authors[i].name == authors.name && self.authors[i].email == authors.email {
                proof {
                    lemma_author_index_at(self.authors@, authors, i as int);
                }
                return i;
            }
            i = i + 1;
        }
        proof {
            lemma_author_index_at(self.authors@, authors, n as int);
        }
        self.authors.push(authors);
        proof {
            let s = final(self).authors@;
            assert(forall|j: int|
                0 <= j < n ==> s[j] == old(self).authors@[j] && !author_matches(
                    #[trigger] s[j],
                    authors,
                ));
            assert(author_matches(s[n as int], authors));
            lemma_author_index_at(s, authors, n as int);
        }
        n
    }

    /// Stores a commit record once: a stored record with the same content
    /// keeps its place, a new one is appended.  Returns the `index` field
    /// of the stored record.
    pub fn insert_data(&mut self, data: GitTreeStateFileMap) -> (r: usize)
        ensures
            final(self).authors == old(self).authors,
            final(self).file == old(self).file,
            has_fm(old(self).data@, data) ==> final(self).data == old(self).data && r == old(
                self,
            ).data@[fm_index(old(self).data@, data)].index,
            !has_fm(old(self).data@, data) ==> final(self).data@ == old(self).data@.push(data)
                && r == data.index,
    {
        let n = self.data.len();
        let mut i: usize = 0;
        while i < n
            invariant
                n == self.data@.len(),
                i <= n,
                *self == *old(self),
                forall|j: int| 0 <= j < i ==> !fm_eq(#[trigger] self.data@[j], data),
            decreases n - i,
        {
            let same = self.data[i].index == data.index && self.data[i].author == data.author
                && self.data[i].committer == data.committer && self.data[i].message
                == data.message && self.data[i].timestamp == data.timestamp && self.data[i].oid
                == data.oid;
            if same {
                proof {
                    lemma_fm_index_at(self.data@, data, i as int);
                }
                return self.data[i].index;
            }
            i = i + 1;
        }
        proof {
            lemma_fm_index_at(self.data@, data, n as int);
        }
        let r = data.index;
        self.data.push(data);
        r
    }
}

/// The full path of a listed entry: parent path followed by its name.
pub open spec fn entry_full_path(e: GitTreeStateFileMapMiddleData) -> Seq<char> {
    e.path@ + e.name@
}

/// A changed path credits an entry: a file entry when the path is exactly
/// the entry's full path, a directory entry when the path lies anywhere in
/// the entry's subtree.  The subtree reading is deliberate — it is what a
/// file browser's "last commit" column means — where a narrower rule would
/// credit a directory only for changes to its immediate children and miss
/// deeper ones.
pub open spec fn credits(p: Seq<char>, e: GitTreeStateFileMapMiddleData) -> bool {
    if e.rtype@ == "tree"@ {
        spec_starts_with(p, entry_full_path(e).push('/'))
    } else if e.rtype@ == "blob"@ {
        p == entry_full_path(e)
    } else {
        false
    }
}

/// Some changed path of the walked commit credits the entry.
pub open spec fn credited_by_some_path(paths: Seq<String>, e: GitTreeStateFileMapMiddleData) -> bool {
    exists|p: int| 0 <= p < paths.len() && credits((#[trigger] paths[p])@, e)
}

/// The entry is one of the listed entries.
pub open spec fn is_listed_entry(
    entries: Seq<GitTreeStateFileMapMiddleData>,
    e: GitTreeStateFileMapMiddleData,
) -> bool {
    exists|j: int| 0 <= j < entries.len() && #[trigger] entries[j] == e
}

/// Structural well-formedness of a correlation result: every record sits at
/// the index it carries, and all identity and record references are in
/// range.
pub open spec fn result_wf(r: StateTreeResult) -> bool {
    &&& forall|i: int|
        0 <= i < r.data@.len() ==> (#[trigger] r.data@[i]).index == i && r.data@[i].author
            < r.authors@.len() && r.data@[i].committer < r.authors@.len()
    &&& forall|k: int| 0 <= k < r.file@.len() ==> (#[trigger] r.file@[k]).1 < r.data@.len()
}

/// Every listed entry is credited at most once.
pub open spec fn file_once(r: StateTreeResult) -> bool {
    forall|a: int, b: int|
        0 <= a < b < r.file@.len() ==> entry_full_path((#[trigger] r.file@[a]).0)
            != entry_full_path((#[trigger] r.file@[b]).0)
}

/// Some credited pair's entry has this full path.
pub open spec fn path_is_credited(
    file: Seq<(GitTreeStateFileMapMiddleData, usize)>,
    t: Seq<char>,
) -> bool {
    exists|k: int| 0 <= k < file.len() && entry_full_path((#[trigger] file[k]).0) == t
}

/// The touched set and the credited pairs describe the same entries: every
/// credited entry's full path is in the touched set and every touched path
/// belongs to a credited entry.
pub open spec fn touched_covers(r: StateTreeResult, has: Seq<String>) -> bool {
    &&& forall|k: int|
        0 <= k < r.file@.len() ==> seq_contains_str(has, entry_full_path(
            (#[trigger] r.file@[k]).0,
        ))
    &&& forall|h: int| 0 <= h < has.len() ==> path_is_credited(r.file@, (#[trigger] has[h])@)
}

impl GitTreeStateFileMapMiddleData {
    /// A field-for-field copy whose equality to the source is known.
    pub fn duplicate(&self) -> (r: Self)
        ensures
            r == *self,
    {
        GitTreeStateFileMapMiddleData {
            path: self.path.clone(),
            name: self.name.clone(),
            rtype: self.rtype.clone(),
        }
    }
}

/// Credits one walked commit: every still-uncredited listed entry that some
/// changed path of this commit credits is paired with this commit's record;
/// already-credited entries are left alone (first touch wins).
pub fn credit_commit(
    result: &mut StateTreeResult,
    has: &mut Vec<String>,
    entries: &Vec<GitTreeStateFileMapMiddleData>,
    paths: &Vec<String>,
    msg: &GitTreeStateFileMap,
) -> (credited: bool)
    requires
        result_wf(*old(result)),
        file_once(*old(result)),
        touched_covers(*old(result), old(has)@),
        msg.index == old(result).data@.len(),
        msg.author < old(result).authors@.len(),
        msg.committer < old(result).authors@.len(),
    ensures
        result_wf(*final(result)),
        file_once(*final(result)),
        touched_covers(*final(result), final(has)@),
        final(result).authors == old(result).authors,
        final(result).data@ == old(result).data@ || final(result).data@ == old(
            result,
        ).data@.push(*msg),
        credited == (final(result).data@ != old(result).data@),
        final(result).file@.len() >= old(result).file@.len(),
        final(has)@.len() >= old(has)@.len(),
        old(result).file@ == final(result).file@.subrange(0, old(result).file@.len() as int),
        old(has)@ == final(has)@.subrange(0, old(has)@.len() as int),
        // soundness of the new pairs
        forall|k: int|
            old(result).file@.len() <= k < final(result).file@.len() ==> !seq_contains_str(
                old(has)@,
                entry_full_path((#[trigger] final(result).file@[k]).0),
            ),
        forall|k: int|
            old(result).file@.len() <= k < final(result).file@.len() ==> credited_by_some_path(
                paths@,
                (#[trigger] final(result).file@[k]).0,
            ),
        forall|k: int|
            old(result).file@.len() <= k < final(result).file@.len() ==> is_listed_entry(
                entries@,
                (#[trigger] final(result).file@[k]).0,
            ),
        forall|k: int|
            old(result).file@.len() <= k < final(result).file@.len() ==> (
            #[trigger] final(result).file@[k]).1 == msg.index,
        final(result).file@.len() > old(result).file@.len() ==> final(result).data@[msg.index as int]
            == *msg,
        // completeness: nothing creditable is skipped
        forall|j: int|
            0 <= j < entries@.len() && !seq_contains_str(old(has)@, entry_full_path(
                #[trigger] entries@[j],
            )) && credited_by_some_path(paths@, entries@[j]) ==> seq_contains_str(
                final(has)@,
                entry_full_path(entries@[j]),
            ),
{
    let ghost data0 = result.data@;
    let ghost file0 = result.file@;
    let ghost has0 = has@;
    let file_len0 = result.file.len();
    let ne = entries.len();
    let mut ei: usize = 0;
    while ei < ne
        invariant
            ne == entries@.len(),
            ei <= ne,
            file0.len() == file_len0,
            result_wf(*result),
            file_once(*result),
            touched_covers(*result, has@),
            result.authors == old(result).authors,
            msg.index == data0.len(),
            msg.author < result.authors@.len(),
            msg.committer < result.authors@.len(),
            data0 == old(result).data@,
            file0 == old(result).file@,
            has0 == old(has)@,
            result.data@ == data0 || result.data@ == data0.push(*msg),
            result.file@.len() >= file0.len(),
            has@.len() >= has0.len(),
            file0 == result.file@.subrange(0, file0.len() as int),
            has0 == has@.subrange(0, has0.len() as int),
            result.file@.len() == file0.len() ==> result.data@ == data0,
            result.file@.len() > file0.len() ==> result.data@ == data0.push(*msg),
            forall|k: int|
                file0.len() <= k < result.file@.len() ==> !seq_contains_str(
                    has0,
                    entry_full_path((#[trigger] result.file@[k]).0),
                ),
            forall|k: int|
                file0.len() <= k < result.file@.len() ==> credited_by_some_path(
                    paths@,
                    (#[trigger] result.file@[k]).0,
                ),
            forall|k: int|
                file0.len() <= k < result.file@.len() ==> is_listed_entry(
                    entries@,
                    (#[trigger] result.file@[k]).0,
                ),
            forall|k: int|
                file0.len() <= k < result.file@.len() ==> (#[trigger] result.file@[k]).1
                    == msg.index,
            result.file@.len() > file0.len() ==> result.data@[msg.index as int] == *msg,
            forall|j: int|
                0 <= j < ei && !seq_contains_str(has0, entry_full_path(#[trigger] entries@[j]))
                    && credited_by_some_path(paths@, entries@[j]) ==> seq_contains_str(
                    has@,
                    entry_full_path(entries@[j]),
                ),
        decreases ne - ei,
    {
        let e = &entries[ei];
        let ghost file_at_entry = result.file@;
        let ghost has_at_entry = has@;
        let full = e.to_path();
        let already = vec_contains_str(has, full.as_str());
        let is_tree = str_eq(e.rtype.as_str(), "tree");
        let is_blob = str_eq(e.rtype.as_str(), "blob");
        let mut hit = false;
        if !already {
            if is_tree || is_blob {
                let mut subtree_prefix = full.clone();
                if is_tree {
                    subtree_prefix.append("/");
                    proof {
                        reveal_strlit("/");
                        assert(subtree_prefix@ =~= entry_full_path(*e).push('/'));
                    }
                }
                let np = paths.len();
                let mut pi: usize = 0;
                while pi < np
                    invariant
                        np == paths@.len(),
                        pi <= np,
                        full@ == entry_full_path(*e),
                        is_tree == (e.rtype@ == "tree"@),
                        is_blob == (e.rtype@ == "blob"@),
                        is_tree || is_blob,
                        is_tree ==> subtree_prefix@ == entry_full_path(*e).push('/'),
                        !is_tree ==> subtree_prefix@ == entry_full_path(*e),
                        hit ==> credited_by_some_path(paths@, *e),
                        !hit ==> forall|p: int|
                            0 <= p < pi ==> !credits((#[trigger] paths@[p])@, *e),
                    decreases np - pi,
                {
                    if !hit {
                        let matched = if is_tree {
                            starts_with(paths[pi].as_str(), subtree_prefix.as_str())
                        } else {
                            str_eq(paths[pi].as_str(), full.as_str())
                        };
                        if matched {
                            proof {
                                assert(credits((paths@[pi as int])@, *e));
                            }
                            hit = true;
                        }
                    }
                    pi = pi + 1;
                }
                if hit {
                    let ghost dpre = result.data@;
                    let msg_index = result.insert_data(msg.duplicate());
                    proof {
                        if dpre == data0 {
                            if has_fm(data0, *msg) {
                                // a record equal in content would carry the
                                // index field data0.len(), which no stored
                                // record does
                                lemma_fm_index_found(data0, *msg);
                                assert(data0[fm_index(data0, *msg)].index == fm_index(
                                    data0,
                                    *msg,
                                ));
                                assert(false);
                            }
                            assert(result.data@ == data0.push(*msg));
                            assert(msg_index == msg.index);
                        } else {
                            // the record was already appended by an earlier
                            // credit of this same commit
                            assert(dpre == data0.push(*msg));
                            assert(fm_eq(dpre[data0.len() as int], *msg));
                            lemma_fm_has(dpre, *msg, data0.len() as int);
                            lemma_fm_index_found(dpre, *msg);
                            assert(msg_index == dpre[fm_index(dpre, *msg)].index);
                            assert(msg_index == msg.index);
                        }
                    }
                    let ghost fpre = result.file@;
                    let ghost hpre = has@;
                    result.file.push((e.duplicate(), msg_index));
                    has.push(full);
                    proof {
                        assert(file0 == fpre.subrange(0, file0.len() as int));
                        assert(result.file@ == fpre.push((*e, msg_index)));
                        assert(file0 =~= result.file@.subrange(0, file0.len() as int));
                        assert(has0 == hpre.subrange(0, has0.len() as int));
                        assert(has@ == hpre.push(full));
                        assert(has0 =~= has@.subrange(0, has0.len() as int));
                        assert(has@[has@.len() - 1]@ == entry_full_path(*e));
                        assert(seq_contains_str(has@, entry_full_path(*e)));
                        assert(!seq_contains_str(has_at_entry, entry_full_path(*e)));
                        if seq_contains_str(has0, entry_full_path(*e)) {
                            let w = choose|w: int|
                                0 <= w < has0.len() && has0[w]@ == entry_full_path(*e);
                            assert(has_at_entry[w]@ == entry_full_path(*e));
                            assert(false);
                        }
                        assert(result.file@[file_at_entry.len() as int].0 == *e);
                        assert(result.file@[file_at_entry.len() as int].1 == msg.index);
                        assert(result.data@ == data0.push(*msg));
                        assert(result.data@[msg.index as int] == *msg);
                    }
                }
            }
        }
        proof {
            assert(entries@[ei as int] == *e);
            let epath = entry_full_path(*e);
            // the touched set only grows within one scan step
            assert forall|t: Seq<char>| seq_contains_str(has_at_entry, t) implies seq_contains_str(
                has@,
                t,
            ) by {
                let w = choose|w: int| 0 <= w < has_at_entry.len() && has_at_entry[w]@ == t;
                assert(has@[w]@ == t);
            }
            // the credited pairs and the touched set still describe the
            // same entries
            assert forall|k: int| 0 <= k < result.file@.len() implies seq_contains_str(
                has@,
                entry_full_path((#[trigger] result.file@[k]).0),
            ) by {
                if k < file_at_entry.len() {
                    assert(result.file@[k] == file_at_entry[k]);
                    assert(seq_contains_str(has_at_entry, entry_full_path(file_at_entry[k].0)));
                } else {
                    assert(result.file@[k].0 == *e);
                }
            }
            assert forall|h: int| 0 <= h < has@.len() implies path_is_credited(
                result.file@,
                (#[trigger] has@[h])@,
            ) by {
                if h < has_at_entry.len() {
                    assert(has@[h] == has_at_entry[h]);
                    assert(path_is_credited(file_at_entry, has_at_entry[h]@));
                    let k = choose|k: int|
                        0 <= k < file_at_entry.len() && entry_full_path(
                            (#[trigger] file_at_entry[k]).0,
                        ) == has_at_entry[h]@;
                    assert(result.file@[k] == file_at_entry[k]);
                    assert(entry_full_path((result.file@[k]).0) == has@[h]@);
                } else {
                    let k = file_at_entry.len() as int;
                    assert(result.file@[k].0 == *e);
                    assert(has@[h]@ == epath);
                    assert(entry_full_path((result.file@[k]).0) == has@[h]@);
                }
            }
            // the per-pair facts persist for old pairs and hold for a new one
            assert forall|k: int|
                file0.len() <= k < result.file@.len() implies credited_by_some_path(
                    paths@,
                    (#[trigger] result.file@[k]).0,
                ) && is_listed_entry(entries@, result.file@[k].0) by {
                if k < file_at_entry.len() {
                    assert(result.file@[k] == file_at_entry[k]);
                } else {
                    assert(result.file@[k].0 == *e);
                    assert(entries@[ei as int] == *e);
                    assert(is_listed_entry(entries@, *e));
                }
            }
            // nothing creditable about this entry was skipped
            if !seq_contains_str(has0, epath) && credited_by_some_path(paths@, *e) {
                if already {
                    assert(seq_contains_str(has_at_entry, epath));
                } else if !(is_tree || is_blob) {
                    let p = choose|p: int| 0 <= p < paths@.len() && credits(paths@[p]@, *e);
                    assert(!credits(paths@[p]@, *e));
                    assert(false);
                } else if !hit {
                    let p = choose|p: int| 0 <= p < paths@.len() && credits(paths@[p]@, *e);
                    assert(!credits(paths@[p]@, *e));
                    assert(false);
                } else {
                    assert(seq_contains_str(has@, epath));
                }
            }
        }
        ei = ei + 1;
    }
    let credited = result.file.len() > file_len0;
    proof {
        if credited {
            assert(result.file@.len() > file0.len());
            assert(result.data@ == data0.push(*msg));
            assert(result.data@.len() == data0.len() + 1);
            assert(result.data@ != data0);
        } else {
            assert(result.file@.len() == file0.len());
            assert(result.data@ == data0);
        }
    }
    credited
}

/// Relies on git2::Repository::diff_tree_to_tree: the new-side path of each
/// delta between the two trees, in diff order; a missing old side is the
/// empty tree (the root diff).
#[verifier::external_body]
fn diff_new_paths(
    repo: &git2::Repository,
    old: Option<&git2::Tree>,
    new: &git2::Tree,
) -> (r: Result<Vec<String>, GitError>)
{
    let diff = repo.diff_tree_to_tree(old, Some(new), None).map_err(|_| GitError::Io)?;
    let mut out: Vec<String> = Vec::new();
    for d in diff.deltas() {
        if let Some(p) = d.new_file().path().and_then(|x| x.to_str()) {
            out.push(p.to_string());
        }
    }
    Ok(out)
}

impl AppGit {
    /// For every entry of the directory listing, finds the most recent
    /// commit whose diff against its first parent touched the entry (or its
    /// subtree), walking first parents newest to oldest and stopping as
    /// soon as every entry is credited.  Each entry is credited at most
    /// once, and commit records and identities are stored deduplicated.
    pub fn tree_msg(&self, param: StateTreeParam) -> (r: Result<StateTreeResult, GitError>)
        ensures
            (param.head is Some && !spec_is_oid(param.head->Some_0@)) ==> r == Err::<
                StateTreeResult,
                GitError,
            >(GitError::NotFound),
            r is Ok ==> result_wf(r->Ok_0),
            r is Ok ==> file_once(r->Ok_0),
            r is Ok ==> forall|i: int|
                0 <= i < r->Ok_0.data@.len() ==> spec_is_loid(
                    (#[trigger] r->Ok_0.data@[i]).oid@,
                ),
    {
        let head_l = match validate_head(&param.head) {
            Ok(h) => h,
            Err(e) => {
                return Err(e);
            },
        };
        let listing_param = StateTreeParam {
            head: match &param.head {
                Some(h) => Some(h.clone()),
                None => None,
            },
            branch: match &param.branch {
                Some(b) => Some(b.clone()),
                None => None,
            },
            path: param.path.clone(),
        };
        let entries = match self.state_tree(listing_param) {
            Ok(v) => v,
            Err(e) => {
                return Err(e);
            },
        };
        let repo = match self.git() {
            Ok(g) => g,
            Err(e) => {
                return Err(e);
            },
        };
        let mut cur = match head_l {
            Some(h) => h,
            None => match resolve_tip(&repo, &param.branch) {
                Ok(c) => c,
                Err(e) => {
                    return Err(e);
                },
            },
        };
        let mut result = StateTreeResult { data: Vec::new(), file: Vec::new(), authors: Vec::new() };
        let mut has: Vec<String> = Vec::new();
        let mut fuel: u64 = u64::MAX;
        let mut walking = true;
        while walking && fuel > 0
            invariant
                param.head is Some ==> spec_is_oid(param.head->Some_0@),
                result_wf(result),
                file_once(result),
                touched_covers(result, has@),
                spec_is_loid(cur@),
                forall|i: int|
                    0 <= i < result.data@.len() ==> spec_is_loid(
                        (#[trigger] result.data@[i]).oid@,
                    ),
            decreases fuel,
        {
            fuel = fuel - 1;
            let ghost r0 = result;
            let parent = match commit_parent(&repo, &cur) {
                Ok(p) => p,
                Err(e) => {
                    return Err(e);
                },
            };
            let cm = match lookup_commit(&repo, &cur) {
                Ok(c) => c,
                Err(e) => {
                    return Err(e);
                },
            };
            let cur_tree = match commit_tree_obj(&repo, &cur) {
                Ok(t) => t,
                Err(e) => {
                    return Err(e);
                },
            };
            let parent_tree = match &parent {
                Some(p) => match commit_tree_obj(&repo, p) {
                    Ok(t) => Some(t),
                    Err(e) => {
                        return Err(e);
                    },
                },
                None => None,
            };
            let paths = match diff_new_paths(&repo, parent_tree.as_ref(), &cur_tree) {
                Ok(v) => v,
                Err(e) => {
                    return Err(e);
                },
            };
            let a_idx = result.insert_authors(
                GitTreeAuthors { name: cm.author.clone(), email: cm.email.clone(), time: cm.timestamp },
            );
            let c_idx = result.insert_authors(
                GitTreeAuthors {
                    name: cm.committer.clone(),
                    email: cm.committer_email.clone(),
                    time: cm.timestamp,
                },
            );
            let msg = GitTreeStateFileMap {
                index: result.data.len(),
                author: a_idx,
                committer: c_idx,
                message: cm.message.clone(),
                timestamp: cm.timestamp,
                oid: cm.hash.clone(),
            };
            proof {
                assert(result.file == r0.file);
                assert(touched_covers(result, has@));
            }
            credit_commit(&mut result, &mut has, &entries, &paths, &msg);
            match parent {
                Some(p) => {
                    cur = p;
                },
                None => {
                    walking = false;
                },
            }
            if has.len() >= entries.len() {
                walking = false;
            }
        }
        Ok(result)
    }
}

} // verus!
