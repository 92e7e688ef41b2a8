//! The Smart HTTP transport bookkeeping: the operation kind decided from
//! the request path, the gzip body decode, the advisory per-request
//! transaction over the declared ref updates, and the commit/rollback
//! decision taken from the subprocess exit.
//!
//! The subprocess itself owns the actual ref mutation; the transaction is
//! observational and never alters bytes already streamed to the client.

use vstd::prelude::*;
use crate::error::GitError;
use crate::strutil::find_char;
use crate::strutil::find_char_at;
use crate::strutil::lemma_find_char;
use crate::strutil::spec_ends_with;
use crate::strutil::spec_last_segment;
use crate::strutil::ends_with;
use crate::strutil::last_segment;
use crate::strutil::str_eq;

verus! {

/// Outcome of one transport request's advisory transaction.
#[derive(Clone, Copy, Debug, PartialEq, Eq, Structural)]
pub enum TransactionStatus {
    Pending,
    Committed,
    RolledBack,
}

/// One declared ref update from the request body: `old-id new-id ref-name`.
#[derive(Clone, Debug)]
pub struct RefChange {
    pub ref_name: String,
    pub old_oid: String,
    pub new_oid: String,
}

/// The per-request record of intended ref changes; Pending until the
/// subprocess exits, then Committed or RolledBack.
#[derive(Debug)]
pub struct Transaction {
    pub repo_path: String,
    pub changes: Vec<RefChange>,
    pub status: TransactionStatus,
}

/// The two Git RPC operations served over Smart HTTP.
#[derive(Clone, Copy, Debug, PartialEq, Eq, Structural)]
pub enum PackKind {
    UploadPack,
    ReceivePack,
}

/// The operation kind a request path names: decided by its final segment.
pub open spec fn spec_op_kind(path: Seq<char>) -> Option<PackKind> {
    if spec_last_segment(path) == "git-upload-pack"@ {
        Some(PackKind::UploadPack)
    } else if spec_last_segment(path) == "git-receive-pack"@ {
        Some(PackKind::ReceivePack)
    } else {
        None
    }
}

/// Determines the operation kind from the request path; anything else is a
/// bad request and spawns no subprocess.
pub fn op_kind_from_path(path: &str) -> (r: Option<PackKind>)
    ensures
        r == spec_op_kind(path@),
{
    let seg = last_segment(path);
    if str_eq(seg.as_str(), "git-upload-pack") {
        Some(PackKind::UploadPack)
    } else if str_eq(seg.as_str(), "git-receive-pack") {
        Some(PackKind::ReceivePack)
    } else {
        None
    }
}

/// The response content type fixed by the operation kind.
pub fn pack_content_type(kind: PackKind) -> (r: &'static str)
    ensures
        kind == PackKind::UploadPack ==> r@ == "application/x-git-upload-pack-result"@,
        kind == PackKind::ReceivePack ==> r@ == "application/x-git-receive-pack-result"@,
{
    match kind {
        PackKind::UploadPack => "application/x-git-upload-pack-result",
        PackKind::ReceivePack => "application/x-git-receive-pack-result",
    }
}

/// The response headers that disable all caching of transport responses.
pub fn no_cache_headers() -> (r: Vec<(&'static str, &'static str)>)
    ensures
        r@.len() == 3,
        r@[0].0@ == "Pragma"@ && r@[0].1@ == "no-cache"@,
        r@[1].0@ == "Cache-Control"@ && r@[1].1@ == "no-cache, max-age=0, must-revalidate"@,
        r@[2].0@ == "Expires"@ && r@[2].1@ == "Fri, 01 Jan 1980 00:00:00 GMT"@,
{
    let mut out: Vec<(&'static str, &'static str)> = Vec::new();
    out.push(("Pragma", "no-cache"));
    out.push(("Cache-Control", "no-cache, max-age=0, must-revalidate"));
    out.push(("Expires", "Fri, 01 Jan 1980 00:00:00 GMT"));
    out
}

/// A repository name with one trailing `.git` suffix removed.
pub open spec fn spec_strip_dot_git(s: Seq<char>) -> Seq<char> {
    if spec_ends_with(s, ".git"@) {
        s.subrange(0, s.len() - 4)
    } else {
        s
    }
}

/// Strips the conventional `.git` suffix from a requested repository name.
pub fn strip_dot_git(name: &str) -> (r: String)
    ensures
        r@ == spec_strip_dot_git(name@),
{
    proof {
        reveal_strlit(".git");
    }
    if ends_with(name, ".git") {
        let n = name.unicode_len();
        name.substring_char(0, n - 4).to_owned()
    } else {
        name.to_owned()
    }
}

/// The gzip inflation of a byte stream, None when the stream is not a valid
/// gzip stream; both are functions of the input bytes alone.
pub uninterp spec fn gunzip_of(data: Seq<u8>) -> Option<Seq<u8>>;

/// Relies on flate2::read::GzDecoder driven by std::io::Read::read_to_end:
/// inflates a gzip-compressed body; success and the inflated bytes depend
/// on the input bytes alone.  A malformed stream is a Validation error (the
/// request is rejected before any subprocess is spawned).
#[verifier::external_body]
pub fn gunzip(data: &Vec<u8>) -> (r: Result<Vec<u8>, GitError>)
    ensures
        r is Ok <==> gunzip_of(data@) is Some,
        r is Ok ==> r->Ok_0@ == gunzip_of(data@)->Some_0,
        r is Err ==> r->Err_0 == GitError::Validation,
{
    let mut d = flate2::read::GzDecoder::new(data.as_slice());
    let mut out: Vec<u8> = Vec::new();
    match std::io::Read::read_to_end(&mut d, &mut out) {
        Ok(_) => Ok(out),
        Err(_) => Err(GitError::Validation),
    }
}

/// A line with one trailing carriage return removed.
pub open spec fn strip_cr(l: Seq<char>) -> Seq<char> {
    if l.len() > 0 && l[l.len() - 1] == '\r' {
        l.drop_last()
    } else {
        l
    }
}

/// The body's lines: split at every newline, with no final empty line for a
/// trailing newline.
pub open spec fn spec_lines(s: Seq<char>) -> Seq<Seq<char>>
    decreases s.len(),
{
    if s.len() == 0 {
        Seq::empty()
    } else {
        let k = find_char(s, '\n', 0);
        if k < 0 || k >= s.len() {
            seq![s]
        } else {
            seq![s.subrange(0, k)] + spec_lines(s.subrange(k + 1, s.len() as int))
        }
    }
}

/// One parsed ref-update line: the first two space-separated tokens are the
/// old and new ids, the rest is the ref name.  A line without three parts,
/// or whose first token is the flush marker `0000`, declares nothing.
pub open spec fn spec_parse_line(l: Seq<char>) -> Option<(Seq<char>, Seq<char>, Seq<char>)> {
    let i = find_char(l, ' ', 0);
    if i >= l.len() {
        None
    } else {
        let j = find_char(l, ' ', i + 1);
        if j >= l.len() {
            None
        } else {
            let old = l.subrange(0, i);
            if old == seq!['0', '0', '0', '0'] {
                None
            } else {
                Some((old, l.subrange(i + 1, j), l.subrange(j + 1, l.len() as int)))
            }
        }
    }
}

/// The declared ref updates of all lines, in body order.
pub open spec fn spec_parse_lines(ls: Seq<Seq<char>>) -> Seq<(Seq<char>, Seq<char>, Seq<char>)>
    decreases ls.len(),
{
    if ls.len() == 0 {
        Seq::empty()
    } else {
        let head = spec_parse_line(strip_cr(ls.first()));
        let rest = spec_parse_lines(ls.drop_first());
        if head is Some {
            seq![head->Some_0] + rest
        } else {
            rest
        }
    }
}

/// The ref updates a request body declares.
pub open spec fn spec_parse_body(s: Seq<char>) -> Seq<(Seq<char>, Seq<char>, Seq<char>)> {
    spec_parse_lines(spec_lines(s))
}

/// The parsed changes match the specified triples item for item.
pub open spec fn changes_match(
    r: Seq<RefChange>,
    s: Seq<(Seq<char>, Seq<char>, Seq<char>)>,
) -> bool {
    r.len() == s.len() && forall|k: int|
        0 <= k < s.len() ==> {
            &&& (#[trigger] r[k]).old_oid@ == s[k].0
            &&& r[k].new_oid@ == s[k].1
            &&& r[k].ref_name@ == s[k].2
        }
}

/// Parses the ref-update lines a request body declares, skipping the flush
/// marker; this bookkeeping is advisory, the subprocess owns the actual ref
/// mutation.
pub fn parse_ref_changes(body: &str) -> (r: Vec<RefChange>)
    ensures
        changes_match(r@, spec_parse_body(body@)),
{
    let n = body.unicode_len();
    let mut out: Vec<RefChange> = Vec::new();
    let mut pos: usize = 0;
    let ghost whole = spec_parse_body(body@);
    let ghost mut done: Seq<(Seq<char>, Seq<char>, Seq<char>)> = Seq::empty();
    proof {
        assert(body@.subrange(0, n as int) =~= body@);
        assert(whole =~= done + spec_parse_lines(spec_lines(body@)));
    }
    while pos < n
        invariant
            n == body@.len(),
            pos <= n,
            changes_match(out@, done),
            whole == spec_parse_body(body@),
            whole == done + spec_parse_lines(spec_lines(body@.subrange(pos as int, n as int))),
        decreases n - pos,
    {
        let nl = find_char_at(body, '\n', pos);
        let line_end = nl;
        let line = body.substring_char(pos, line_end);
        let ghost rem = body@.subrange(pos as int, n as int);
        proof {
            lemma_find_char(body@, '\n', pos as int);
            assert(rem.len() > 0);
            // the remainder's first line is exactly this line
            assert forall|j: int| 0 <= j < rem.len() implies rem[j] == body@[pos + j] by {}
            if nl < n {
                assert(find_char(rem, '\n', 0) == nl - pos) by {
                    lemma_find_char_shift(body@, pos as int, nl as int);
                }
                assert(rem.subrange(0, nl - pos) =~= line@);
            } else {
                assert(find_char(rem, '\n', 0) == rem.len()) by {
                    lemma_find_char_shift(body@, pos as int, nl as int);
                }
                assert(rem.subrange(0, rem.len() as int) =~= line@);
                assert(rem =~= line@);
            }
        }
        let parsed = parse_line(line);
        match parsed {
            Some(c) => {
                proof {
                    done = done + seq![
                        (c.old_oid@, c.new_oid@, c.ref_name@),
                    ];
                }
                out.push(c);
            },
            None => {},
        }
        proof {
            let next_rem = body@.subrange(
                if nl < n {
                    nl + 1
                } else {
                    n as int
                },
                n as int,
            );
            if nl < n {
                assert(spec_lines(rem) =~= seq![line@] + spec_lines(next_rem)) by {
                    assert(rem.subrange(nl - pos + 1, rem.len() as int) =~= next_rem);
                }
            } else {
                assert(spec_lines(rem) =~= seq![line@]);
                assert(next_rem =~= Seq::<char>::empty());
            }
            assert(spec_lines(rem).drop_first() =~= spec_lines(next_rem));
            assert(changes_match(out@, done));
        }
        pos = if nl < n {
            nl + 1
        } else {
            n
        };
    }
    proof {
        assert(body@.subrange(pos as int, n as int) =~= Seq::<char>::empty());
        assert(whole =~= done);
    }
    out
}

proof fn lemma_find_char_shift(s: Seq<char>, pos: int, r: int)
    requires
        0 <= pos <= s.len(),
        r == find_char(s, '\n', pos),
    ensures
        find_char(s.subrange(pos, s.len() as int), '\n', 0) == r - pos,
    decreases s.len() - pos,
{
    lemma_find_char(s, '\n', pos);
    let rem = s.subrange(pos, s.len() as int);
    lemma_find_char(rem, '\n', 0);
    let q = find_char(rem, '\n', 0);
    if q < rem.len() {
        assert(s[pos + q] == '\n');
    }
    if r < s.len() {
        assert(rem[r - pos] == '\n');
    }
    if q < r - pos {
        assert(s[pos + q] != '\n');
        assert(false);
    }
    if r - pos < q {
        assert(rem[r - pos] != '\n');
        assert(false);
    }
}

/// Parses one body line into a declared ref update, if it is one.
fn parse_line(line: &str) -> (r: Option<RefChange>)
    ensures
        spec_parse_line(strip_cr(line@)) is Some <==> r is Some,
        r is Some ==> {
            &&& r->Some_0.old_oid@ == spec_parse_line(strip_cr(line@))->Some_0.0
            &&& r->Some_0.new_oid@ == spec_parse_line(strip_cr(line@))->Some_0.1
            &&& r->Some_0.ref_name@ == spec_parse_line(strip_cr(line@))->Some_0.2
        },
{
    proof {
        reveal_strlit("0000");
    }
    let n0 = line.unicode_len();
    let stripped = if n0 > 0 && line.get_char(n0 - 1) == '\r' {
        line.substring_char(0, n0 - 1)
    } else {
        line.substring_char(0, n0)
    };
    proof {
        assert(stripped@ =~= strip_cr(line@));
    }
    let n = stripped.unicode_len();
    let i = find_char_at(stripped, ' ', 0);
    if i >= n {
        return None;
    }
    let j = find_char_at(stripped, ' ', i + 1);
    if j >= n {
        return None;
    }
    let old_tok = stripped.substring_char(0, i).to_owned();
    if str_eq(old_tok.as_str(), "0000") {
        proof {
            assert("0000"@ =~= seq!['0', '0', '0', '0']);
        }
        return None;
    }
    proof {
        assert("0000"@ =~= seq!['0', '0', '0', '0']);
    }
    let new_tok = stripped.substring_char(i + 1, j).to_owned();
    let ref_tok = stripped.substring_char(j + 1, n).to_owned();
    Some(RefChange { ref_name: ref_tok, old_oid: old_tok, new_oid: new_tok })
}

impl Transaction {
    /// A fresh, Pending transaction for the repository at this path.
    pub fn new(repo_path: String) -> (r: Self)
        ensures
            r.repo_path == repo_path,
            r.changes@ =~= Seq::<RefChange>::empty(),
            r.status == TransactionStatus::Pending,
    {
        Transaction { repo_path, changes: Vec::new(), status: TransactionStatus::Pending }
    }

    /// Appends one intended ref change.
    pub fn add_change(&mut self, ref_name: String, old_oid: String, new_oid: String)
        ensures
            final(self).changes@ == old(self).changes@.push(
                RefChange { ref_name, old_oid, new_oid },
            ),
            final(self).repo_path == old(self).repo_path,
            final(self).status == old(self).status,
    {
        self.changes.push(RefChange { ref_name, old_oid, new_oid });
    }

    /// Records every ref update the request body declares, in body order.
    pub fn record_body(&mut self, body: &str)
        ensures
            final(self).changes@.len() == old(self).changes@.len() + spec_parse_body(
                body@,
            ).len(),
            old(self).changes@ == final(self).changes@.subrange(
                0,
                old(self).changes@.len() as int,
            ),
            changes_match(
                final(self).changes@.subrange(
                    old(self).changes@.len() as int,
                    final(self).changes@.len() as int,
                ),
                spec_parse_body(body@),
            ),
            final(self).repo_path == old(self).repo_path,
            final(self).status == old(self).status,
    {
        let parsed = parse_ref_changes(body);
        let ghost base = self.changes@;
        let n = parsed.len();
        let mut i: usize = 0;
        while i < n
            invariant
                n == parsed@.len(),
                i <= n,
                changes_match(parsed@, spec_parse_body(body@)),
                self.repo_path == old(self).repo_path,
                self.status == old(self).status,
                base == old(self).changes@,
                self.changes@.len() == base.len() + i,
                base == self.changes@.subrange(0, base.len() as int),
                forall|k: int|
                    0 <= k < i ==> #[trigger] self.changes@[base.len() + k].old_oid@
                        == parsed@[k].old_oid@ && self.changes@[base.len() + k].new_oid@
                        == parsed@[k].new_oid@ && self.changes@[base.len() + k].ref_name@
                        == parsed@[k].ref_name@,
            decreases n - i,
        {
            let ghost pre = self.changes@;
            let c = &parsed[i];
            self.add_change(c.ref_name.clone(), c.old_oid.clone(), c.new_oid.clone());
            proof {
                assert(base =~= self.changes@.subrange(0, base.len() as int));
            }
            i = i + 1;
        }
        proof {
            let sub = self.changes@.subrange(base.len() as int, self.changes@.len() as int);
            let spec = spec_parse_body(body@);
            assert(sub.len() == spec.len());
            assert forall|k: int|
                0 <= k < spec.len() implies {
                    &&& (#[trigger] sub[k]).old_oid@ == spec[k].0
                    &&& sub[k].new_oid@ == spec[k].1
                    &&& sub[k].ref_name@ == spec[k].2
                } by {
                assert(sub[k] == self.changes@[base.len() + k]);
                assert(parsed@[k].old_oid@ == spec[k].0);
            }
            assert(changes_match(sub, spec));
        }
    }

    /// Marks the transaction Committed: the subprocess exited successfully.
    pub fn commit(&mut self)
        ensures
            final(self).status == TransactionStatus::Committed,
            final(self).changes == old(self).changes,
            final(self).repo_path == old(self).repo_path,
    {
        self.status = TransactionStatus::Committed;
    }

    /// Marks the transaction RolledBack: the subprocess failed or a pipe
    /// broke; bytes already streamed to the client are not taken back.
    pub fn rollback(&mut self)
        ensures
            final(self).status == TransactionStatus::RolledBack,
            final(self).changes == old(self).changes,
            final(self).repo_path == old(self).repo_path,
    {
        self.status = TransactionStatus::RolledBack;
    }
}

/// Settles a request's transaction from the subprocess exit status: success
/// commits, anything else rolls back.  Returns whether the reconciliation
/// sync must run — exactly for a successful receive-pack, once.
pub fn pack_finish(tx: &mut Transaction, kind: PackKind, exit_ok: bool) -> (sync: bool)
    ensures
        exit_ok ==> final(tx).status == TransactionStatus::Committed,
        !exit_ok ==> final(tx).status == TransactionStatus::RolledBack,
        final(tx).changes == old(tx).changes,
        final(tx).repo_path == old(tx).repo_path,
        sync == (exit_ok && kind == PackKind::ReceivePack),
{
    if exit_ok {
        tx.commit();
        match kind {
            PackKind::ReceivePack => true,
            PackKind::UploadPack => false,
        }
    } else {
        tx.rollback();
        false
    }
}

} // verus!
