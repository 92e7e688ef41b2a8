//! The history walker: an ordered, optionally range-bounded and limited
//! list of the commits reachable from a reference.
//!
//! The walk order itself comes from git2's revision walker (newest first by
//! commit time); which walked commits are emitted is decided by the verified
//! selection below.  Emission is gated by an in-range flag: it becomes true
//! once the `start` boundary commit is observed (inclusive; immediately when
//! no `start` is given) and becomes permanently false once the `end`
//! boundary commit has been emitted.  A `limit` caps the number of emitted
//! commits and never affects the reported total.

use vstd::prelude::*;
use crate::error::GitError;
use crate::repo::AppGit;
use crate::repo::find_commit_obj;
use crate::repo::resolve_tip;
use crate::strutil::is_oid;
use crate::strutil::lower_hex;
use crate::strutil::spec_is_loid;
use crate::strutil::spec_lower_hex;
use crate::strutil::spec_is_oid;
use crate::strutil::str_eq;

verus! {

/// Walk request: optional range boundaries (commit ids), an optional cap on
/// the emitted commits, and an optional branch name (the current head when
/// absent).
#[derive(Clone, Debug)]
pub struct GitCommitListParam {
    pub start: Option<String>,
    pub end: Option<String>,
    pub limit: Option<i32>,
    pub branch: Option<String>,
}

/// One walked commit, as plain values.
#[derive(Clone, Debug)]
pub struct GitCommit {
    pub hash: String,
    pub author: String,
    pub email: String,
    pub committer: String,
    pub committer_email: String,
    pub message: String,
    pub timestamp: i64,
}

impl GitCommit {
    /// A field-for-field copy whose equality to the source is known.
    pub fn duplicate(&self) -> (r: Self)
        ensures
            r == *self,
    {
        GitCommit {
            hash: self.hash.clone(),
            author: self.author.clone(),
            email: self.email.clone(),
            committer: self.committer.clone(),
            committer_email: self.committer_email.clone(),
            message: self.message.clone(),
            timestamp: self.timestamp,
        }
    }
}

/// The emitted commits and the total count of reachable commits, which is
/// independent of range and limit.
#[derive(Clone, Debug)]
pub struct GitCommitListResult {
    pub data: Vec<GitCommit>,
    pub total: usize,
}

/// The commits are ordered by non-increasing commit time.
pub open spec fn sorted_by_time(s: Seq<GitCommit>) -> bool {
    forall|a: int, b: int|
        0 <= a < b < s.len() ==> (#[trigger] s[a]).timestamp >= (#[trigger] s[b]).timestamp
}

/// The view of an optional boundary id.
pub open spec fn opt_view(o: Option<String>) -> Option<Seq<char>> {
    match o {
        Some(s) => Some(s@),
        None => None,
    }
}

/// The canonical (lower-case) view of an optional boundary id.
pub open spec fn opt_lower(o: Option<String>) -> Option<Seq<char>> {
    match o {
        Some(s) => Some(spec_lower_hex(s@)),
        None => None,
    }
}

/// The boundary gate: the walked commit matches the given boundary id.
pub open spec fn oid_gate(bound: Option<Seq<char>>, c: GitCommit) -> bool {
    bound is Some && c.hash@ == bound->Some_0
}

/// The emission cap has been reached (a non-positive cap allows nothing).
pub open spec fn limit_reached(limit: Option<i32>, emitted: int) -> bool {
    limit is Some && emitted >= limit->Some_0
}

/// State of the range selection while scanning the walked commits.
pub ghost struct SelState {
    pub emitted: Seq<GitCommit>,
    pub emitting: bool,
    pub done: bool,
}

/// Selection state before any walked commit has been scanned.
pub open spec fn sel_init(start: Option<Seq<char>>, limit: Option<i32>) -> SelState {
    SelState { emitted: Seq::empty(), emitting: start is None, done: limit_reached(limit, 0) }
}

/// Scans one walked commit: turn emission on at the `start` boundary, emit
/// while in range, and stop for good once the `end` boundary has been
/// emitted or the cap is reached.
pub open spec fn sel_step(
    st: SelState,
    c: GitCommit,
    start: Option<Seq<char>>,
    end: Option<Seq<char>>,
    limit: Option<i32>,
) -> SelState {
    if st.done {
        st
    } else {
        let emitting = st.emitting || oid_gate(start, c);
        if emitting {
            let emitted = st.emitted.push(c);
            SelState {
                emitted,
                emitting,
                done: oid_gate(end, c) || limit_reached(limit, emitted.len() as int),
            }
        } else {
            SelState { emitted: st.emitted, emitting, done: false }
        }
    }
}

/// The selection state after scanning all of `walk`, oldest step last.
pub open spec fn sel_fold(
    walk: Seq<GitCommit>,
    start: Option<Seq<char>>,
    end: Option<Seq<char>>,
    limit: Option<i32>,
) -> SelState
    decreases walk.len(),
{
    if walk.len() == 0 {
        sel_init(start, limit)
    } else {
        sel_step(sel_fold(walk.drop_last(), start, end, limit), walk.last(), start, end, limit)
    }
}

/// The subsequence of walked commits that the walker emits.
pub open spec fn spec_select(
    walk: Seq<GitCommit>,
    start: Option<Seq<char>>,
    end: Option<Seq<char>>,
    limit: Option<i32>,
) -> Seq<GitCommit> {
    sel_fold(walk, start, end, limit).emitted
}

/// Applies the range and limit gates to the walked commits and returns the
/// ones to emit, in walk order.
pub fn select_range(
    walk: &Vec<GitCommit>,
    start: &Option<String>,
    end: &Option<String>,
    limit: &Option<i32>,
) -> (r: Vec<GitCommit>)
    ensures
        r@ == spec_select(walk@, opt_view(*start), opt_view(*end), *limit),
{
    let n = walk.len();
    let mut out: Vec<GitCommit> = Vec::new();
    let mut emitting: bool = start.is_none();
    let mut done: bool = match limit {
        Some(l) => *l <= 0,
        None => false,
    };
    let mut i: usize = 0;
    while i < n
        invariant
            n == walk@.len(),
            i <= n,
            sel_fold(walk@.subrange(0, i as int), opt_view(*start), opt_view(*end), *limit).emitted
                == out@,
            sel_fold(
                walk@.subrange(0, i as int),
                opt_view(*start),
                opt_view(*end),
                *limit,
            ).emitting == emitting,
            sel_fold(walk@.subrange(0, i as int), opt_view(*start), opt_view(*end), *limit).done
                == done,
        decreases n - i,
    {
        proof {
            assert(walk@.subrange(0, i as int + 1).drop_last() =~= walk@.subrange(0, i as int));
            assert(walk@.subrange(0, i as int + 1).last() == walk@[i as int]);
        }
        if !done {
            let gate_start = match start {
                Some(s) => str_eq(walk[i].hash.as_str(), s.as_str()),
                None => false,
            };
            if gate_start {
                emitting = true;
            }
            if emitting {
                out.push(walk[i].duplicate());
                let gate_end = match end {
                    Some(e) => str_eq(walk[i].hash.as_str(), e.as_str()),
                    None => false,
                };
                let at_limit = match limit {
                    Some(l) => {
                        if *l <= 0 {
                            true
                        } else {
                            out.len() >= (*l as usize)
                        }
                    },
                    None => false,
                };
                done = gate_end || at_limit;
            }
        }
        i = i + 1;
    }
    proof {
        assert(walk@.subrange(0, n as int) =~= walk@);
    }
    out
}

/// Every step of the scan emits at most one commit.
pub proof fn lemma_select_len(
    walk: Seq<GitCommit>,
    start: Option<Seq<char>>,
    end: Option<Seq<char>>,
    limit: Option<i32>,
)
    ensures
        spec_select(walk, start, end, limit).len() <= walk.len(),
    decreases walk.len(),
{
    if walk.len() > 0 {
        lemma_select_len(walk.drop_last(), start, end, limit);
    }
}

/// Every emitted commit is one of the walked commits.
pub proof fn lemma_select_elements(
    walk: Seq<GitCommit>,
    start: Option<Seq<char>>,
    end: Option<Seq<char>>,
    limit: Option<i32>,
)
    ensures
        forall|k: int|
            0 <= k < spec_select(walk, start, end, limit).len() ==> exists|j: int|
                0 <= j < walk.len() && #[trigger] spec_select(walk, start, end, limit)[k]
                    == walk[j],
    decreases walk.len(),
{
    if walk.len() > 0 {
        lemma_select_elements(walk.drop_last(), start, end, limit);
        let sel = spec_select(walk, start, end, limit);
        let sub = spec_select(walk.drop_last(), start, end, limit);
        assert forall|k: int| 0 <= k < sel.len() implies exists|j: int|
            0 <= j < walk.len() && #[trigger] sel[k] == walk[j] by {
            if k < sub.len() {
                let j = choose|j: int|
                    0 <= j < walk.len() - 1 && #[trigger] sub[k] == walk.drop_last()[j];
                assert(walk.drop_last()[j] == walk[j]);
                assert(sel[k] == walk[j]);
            } else {
                assert(sel[k] == walk.last());
                assert(sel[k] == walk[walk.len() - 1]);
            }
        }
    }
}

/// A selection out of a time-ordered walk is itself time-ordered: emission
/// only ever appends the oldest commit scanned so far.
pub proof fn lemma_select_sorted(
    walk: Seq<GitCommit>,
    start: Option<Seq<char>>,
    end: Option<Seq<char>>,
    limit: Option<i32>,
)
    requires
        sorted_by_time(walk),
    ensures
        sorted_by_time(spec_select(walk, start, end, limit)),
    decreases walk.len(),
{
    if walk.len() > 0 {
        let dl = walk.drop_last();
        assert(forall|i: int| 0 <= i < dl.len() ==> #[trigger] dl[i] == walk[i]);
        lemma_select_sorted(dl, start, end, limit);
        lemma_select_elements(dl, start, end, limit);
        let sub = spec_select(dl, start, end, limit);
        let sel = spec_select(walk, start, end, limit);
        if sel != sub {
            // this step emitted the last walked commit, which is the oldest
            assert(sel =~= sub.push(walk.last()));
            assert forall|a: int, b: int|
                0 <= a < b < sel.len() implies (#[trigger] sel[a]).timestamp >= (
            #[trigger] sel[b]).timestamp by {
                if b < sub.len() {
                    assert(sel[a] == sub[a] && sel[b] == sub[b]);
                } else {
                    assert(sel[b] == walk.last());
                    let j = choose|j: int| 0 <= j < dl.len() && #[trigger] sub[a] == dl[j];
                    assert(sel[a] == walk[j]);
                    assert(walk[j].timestamp >= walk[walk.len() - 1].timestamp);
                }
            }
        }
    }
}

/// A selection out of a duplicate-free walk is itself duplicate-free: no
/// walked commit is emitted twice.
pub proof fn lemma_select_distinct(
    walk: Seq<GitCommit>,
    start: Option<Seq<char>>,
    end: Option<Seq<char>>,
    limit: Option<i32>,
)
    requires
        distinct_hashes(walk),
    ensures
        distinct_hashes(spec_select(walk, start, end, limit)),
    decreases walk.len(),
{
    if walk.len() > 0 {
        let dl = walk.drop_last();
        assert(forall|i: int| 0 <= i < dl.len() ==> #[trigger] dl[i] == walk[i]);
        lemma_select_distinct(dl, start, end, limit);
        lemma_select_elements(dl, start, end, limit);
        let sub = spec_select(dl, start, end, limit);
        let sel = spec_select(walk, start, end, limit);
        if sel != sub {
            // this step emitted the last walked commit, which no earlier
            // emission can share an id with
            assert(sel =~= sub.push(walk.last()));
            assert forall|a: int, b: int|
                0 <= a < b < sel.len() implies (#[trigger] sel[a]).hash@ != (
            #[trigger] sel[b]).hash@ by {
                if b < sub.len() {
                    assert(sel[a] == sub[a] && sel[b] == sub[b]);
                } else {
                    assert(sel[b] == walk.last());
                    let j = choose|j: int| 0 <= j < dl.len() && #[trigger] sub[a] == dl[j];
                    assert(sel[a] == walk[j]);
                    assert(walk[j].hash@ != walk[walk.len() - 1].hash@);
                }
            }
        }
    }
}

/// With no boundaries and no limit, the walker emits every reachable commit
/// in walk order, so the emitted count equals the reported total.
pub proof fn lemma_select_unbounded(walk: Seq<GitCommit>)
    ensures
        spec_select(walk, None, None, None) == walk,
        sel_fold(walk, None, None, None).emitting,
        !sel_fold(walk, None, None, None).done,
    decreases walk.len(),
{
    if walk.len() == 0 {
        assert(spec_select(walk, None, None, None) =~= walk);
    } else {
        lemma_select_unbounded(walk.drop_last());
        assert(spec_select(walk, None, None, None) =~= walk);
    }
}

/// A limit of `k` caps the emission at the first `k` commits of the
/// unbounded walk and leaves the walked set (and so the total) untouched.
pub proof fn lemma_select_limit(walk: Seq<GitCommit>, k: i32)
    requires
        k >= 0,
    ensures
        spec_select(walk, None, None, Some(k)) == (if k <= walk.len() {
            walk.subrange(0, k as int)
        } else {
            walk
        }),
        sel_fold(walk, None, None, Some(k)).done == (walk.len() >= k),
        sel_fold(walk, None, None, Some(k)).emitting,
    decreases walk.len(),
{
    if walk.len() == 0 {
        assert(spec_select(walk, None, None, Some(k)) =~= Seq::<GitCommit>::empty());
        if k == 0 {
            assert(walk.subrange(0, 0) =~= Seq::<GitCommit>::empty());
        }
    } else {
        let dl = walk.drop_last();
        lemma_select_limit(dl, k);
        let st = sel_fold(dl, None, None, Some(k));
        if st.done {
            assert(dl.len() >= k);
            assert(dl.subrange(0, k as int) =~= walk.subrange(0, k as int));
        } else {
            assert(dl.len() < k);
            assert(st.emitted == dl);
            assert(st.emitted.push(walk.last()) =~= walk);
            if k <= walk.len() {
                assert(walk.subrange(0, k as int) =~= walk);
            }
        }
    }
}

/// All walked commit ids are pairwise distinct.
pub open spec fn distinct_hashes(walk: Seq<GitCommit>) -> bool {
    forall|a: int, b: int|
        0 <= a < b < walk.len() ==> (#[trigger] walk[a]).hash@ != (#[trigger] walk[b]).hash@
}

proof fn lemma_select_bounds_helper(
    walk: Seq<GitCommit>,
    i: int,
    j: int,
    start: Option<Seq<char>>,
    end: Option<Seq<char>>,
    m: int,
)
    requires
        distinct_hashes(walk),
        0 <= i <= j < walk.len(),
        start is Some && start->Some_0 == walk[i].hash@,
        end is Some && end->Some_0 == walk[j].hash@,
        0 <= m <= walk.len(),
    ensures
        m <= i ==> sel_fold(walk.subrange(0, m), start, end, None) == (SelState {
            emitted: Seq::<GitCommit>::empty(),
            emitting: false,
            done: false,
        }),
        i < m <= j ==> sel_fold(walk.subrange(0, m), start, end, None) == (SelState {
            emitted: walk.subrange(i, m),
            emitting: true,
            done: false,
        }),
        m > j ==> sel_fold(walk.subrange(0, m), start, end, None) == (SelState {
            emitted: walk.subrange(i, j + 1),
            emitting: true,
            done: true,
        }),
    decreases m,
{
    if m == 0 {
        assert(walk.subrange(0, 0) =~= Seq::<GitCommit>::empty());
    } else {
        lemma_select_bounds_helper(walk, i, j, start, end, m - 1);
        let pre = walk.subrange(0, m - 1);
        let cur = walk.subrange(0, m);
        assert(cur.drop_last() =~= pre);
        assert(cur.last() == walk[m - 1]);
        let st = sel_fold(pre, start, end, None);
        if m - 1 < i {
            // the start boundary has not been scanned yet
            assert(walk[m - 1].hash@ != walk[i].hash@);
            assert(!oid_gate(start, walk[m - 1]));
            if m <= i {
            } else {
                // impossible: m - 1 < i < m
                assert(false);
            }
        } else if m - 1 == i {
            assert(oid_gate(start, walk[m - 1]));
            if i < j {
                assert(walk[m - 1].hash@ != walk[j].hash@);
                assert(!oid_gate(end, walk[m - 1]));
                assert(st.emitted.push(walk[i]) =~= walk.subrange(i, m));
            } else {
                assert(oid_gate(end, walk[m - 1]));
                assert(st.emitted.push(walk[i]) =~= walk.subrange(i, j + 1));
            }
        } else if m - 1 < j {
            assert(walk[m - 1].hash@ != walk[j].hash@);
            assert(!oid_gate(end, walk[m - 1]));
            assert(st.emitted.push(walk[m - 1]) =~= walk.subrange(i, m));
        } else if m - 1 == j {
            assert(oid_gate(end, walk[m - 1]));
            assert(st.emitted.push(walk[j]) =~= walk.subrange(i, j + 1));
        } else {
            // done: the state is frozen
        }
    }
}

/// With both boundaries present in the walked set (the more recent `start`
/// first), the walker emits exactly the commits from `start` down to and
/// including `end`, in walk order.
pub proof fn lemma_select_bounds(
    walk: Seq<GitCommit>,
    i: int,
    j: int,
    start: Option<Seq<char>>,
    end: Option<Seq<char>>,
)
    requires
        distinct_hashes(walk),
        0 <= i <= j < walk.len(),
        start is Some && start->Some_0 == walk[i].hash@,
        end is Some && end->Some_0 == walk[j].hash@,
    ensures
        spec_select(walk, start, end, None) == walk.subrange(i, j + 1),
{
    lemma_select_bounds_helper(walk, i, j, start, end, walk.len() as int);
    assert(walk.subrange(0, walk.len() as int) =~= walk);
}

/// Relies on git2::Revwalk, pushed at `head` and sorted by Sort::TIME: the
/// walk yields each commit reachable from `head` exactly once (visited
/// commits are marked and never re-yielded), newest first by commit time,
/// extracted to plain values with canonical ids.
#[verifier::external_body]
fn revwalk_commits(repo: &git2::Repository, head: &String) -> (r: Result<Vec<GitCommit>, GitError>)
    requires
        spec_is_loid(head@),
    ensures
        r is Ok ==> sorted_by_time(r->Ok_0@),
        r is Ok ==> distinct_hashes(r->Ok_0@),
        r is Ok ==> forall|i: int|
            0 <= i < r->Ok_0@.len() ==> spec_is_loid((#[trigger] r->Ok_0@[i]).hash@),
{
    let oid = git2::Oid::from_str(head.as_str()).map_err(|_| GitError::NotFound)?;
    let mut walk = repo.revwalk().map_err(|_| GitError::Io)?;
    walk.push(oid).map_err(|_| GitError::NotFound)?;
    walk.set_sorting(git2::Sort::TIME).map_err(|_| GitError::Io)?;
    let mut out: Vec<GitCommit> = Vec::new();
    for step in walk {
        let id = step.map_err(|_| GitError::Io)?.to_string();
        out.push(lookup_commit(repo, &id)?);
    }
    Ok(out)
}

/// Relies on git2::Repository::find_commit and the commit field accessors
/// (id, author, committer, message, time): looks one commit up by its
/// canonical id and extracts its fields as plain values; parsing and
/// re-printing a canonical id is the identity.
#[verifier::external_body]
pub(crate) fn lookup_commit(repo: &git2::Repository, id: &String) -> (r: Result<GitCommit, GitError>)
    requires
        spec_is_loid(id@),
    ensures
        r is Ok ==> r->Ok_0.hash@ == id@,
        r is Ok ==> spec_is_loid(r->Ok_0.hash@),
{
    let c = find_commit_obj(repo, id)?;
    let (a, cm) = (c.author(), c.committer());
    let out = GitCommit {
        hash: c.id().to_string(),
        author: a.name().unwrap_or("").to_string(),
        email: a.email().unwrap_or("").to_string(),
        committer: cm.name().unwrap_or("").to_string(),
        committer_email: cm.email().unwrap_or("").to_string(),
        message: c.message().unwrap_or("").to_string(),
        timestamp: c.time().seconds(),
    };
    Ok(out)
}

impl AppGit {
    /// Walks the history reachable from the requested reference and returns
    /// the commits selected by the range boundaries and the limit, in
    /// non-increasing commit-time order, together with the total count of
    /// reachable commits — the length of the full walk, taken before any
    /// selection, so neither boundaries nor the limit can change it.  A
    /// malformed boundary id is rejected as NotFound before the repository
    /// is read.
    pub fn commit_list(&self, param: GitCommitListParam) -> (r: Result<
        GitCommitListResult,
        GitError,
    >)
        ensures
            (param.start is Some && !spec_is_oid(param.start->Some_0@)) ==> r == Err::<
                GitCommitListResult,
                GitError,
            >(GitError::NotFound),
            (param.end is Some && !spec_is_oid(param.end->Some_0@)) ==> r == Err::<
                GitCommitListResult,
                GitError,
            >(GitError::NotFound),
            r is Ok ==> r->Ok_0.data@.len() <= r->Ok_0.total,
            r is Ok ==> sorted_by_time(r->Ok_0.data@),
            r is Ok ==> distinct_hashes(r->Ok_0.data@),
            r is Ok ==> forall|k: int|
                0 <= k < r->Ok_0.data@.len() ==> spec_is_loid(
                    (#[trigger] r->Ok_0.data@[k]).hash@,
                ),
            // the emitted commits and the total come from one time-ordered,
            // duplicate-free walk: the data is exactly the selection out of
            // it, the total its whole length
            r is Ok ==> exists|w: Seq<GitCommit>| {
                &&& sorted_by_time(w)
                &&& distinct_hashes(w)
                &&& #[trigger] spec_select(w, opt_lower(param.start), opt_lower(param.end), param.limit)
                    == r->Ok_0.data@
                &&& r->Ok_0.total == w.len()
            },
    {
        let start_l: Option<String> = match &param.start {
            Some(s) => {
                if !is_oid(s.as_str()) {
                    return Err(GitError::NotFound);
                }
                Some(lower_hex(s.as_str()))
            },
            None => None,
        };
        let end_l: Option<String> = match &param.end {
            Some(s) => {
                if !is_oid(s.as_str()) {
                    return Err(GitError::NotFound);
                }
                Some(lower_hex(s.as_str()))
            },
            None => None,
        };
        let repo = match self.git() {
            Ok(g) => g,
            Err(e) => {
                return Err(e);
            },
        };
        let head = match resolve_tip(&repo, &param.branch) {
            Ok(h) => h,
            Err(e) => {
                return Err(e);
            },
        };
        let walk = match revwalk_commits(&repo, &head) {
            Ok(v) => v,
            Err(e) => {
                return Err(e);
            },
        };
        let total = walk.len();
        let data = select_range(&walk, &start_l, &end_l, &param.limit);
        proof {
            lemma_select_len(walk@, opt_view(start_l), opt_view(end_l), param.limit);
            lemma_select_sorted(walk@, opt_view(start_l), opt_view(end_l), param.limit);
            lemma_select_distinct(walk@, opt_view(start_l), opt_view(end_l), param.limit);
            lemma_select_elements(walk@, opt_view(start_l), opt_view(end_l), param.limit);
            assert forall|k: int| 0 <= k < data@.len() implies spec_is_loid(
                (#[trigger] data@[k]).hash@,
            ) by {
                assert(data@[k] == spec_select(
                    walk@,
                    opt_view(start_l),
                    opt_view(end_l),
                    param.limit,
                )[k]);
                let j = choose|j: int|
                    0 <= j < walk@.len() && #[trigger] spec_select(
                        walk@,
                        opt_view(start_l),
                        opt_view(end_l),
                        param.limit,
                    )[k] == walk@[j];
                assert(spec_is_loid(walk@[j].hash@));
            }
            // the canonicalized boundaries are the canonical views of the
            // request's boundaries
            assert(opt_view(start_l) == opt_lower(param.start));
            assert(opt_view(end_l) == opt_lower(param.end));
            assert(spec_select(walk@, opt_lower(param.start), opt_lower(param.end), param.limit)
                == data@);
        }
        Ok(GitCommitListResult { data, total })
    }
}

} // verus!
