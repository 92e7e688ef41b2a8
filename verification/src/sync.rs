//! Reconciliation planning: after a push, the live branch list and commit
//! history are compared against the cached rows and a strictly additive
//! catch-up plan is computed.  Nothing is ever deleted from the cache, and
//! replaying a plan against a cache that already holds everything plans
//! nothing — the sync is idempotent per commit hash.

use vstd::prelude::*;
use crate::branches::GitBranchListResult;
use crate::commits::GitCommit;
use crate::strutil::seq_contains_str;
use crate::strutil::vec_contains_str;

verus! {

/// One cached branch row: its row key, the branch name and the cached head.
#[derive(Clone, Debug)]
pub struct CachedBranch {
    pub uid: String,
    pub name: String,
    pub head: String,
}

/// One step of the branch catch-up: insert a new row or move a stale head.
#[derive(Clone, Debug)]
pub enum BranchSyncAction {
    Create { name: String, head: String },
    UpdateHead { uid: String, head: String },
}

/// The first cached row with this branch name, or the row count when none
/// has it.
pub open spec fn cached_index(cached: Seq<CachedBranch>, name: Seq<char>) -> int
    decreases cached.len(),
{
    if cached.len() == 0 {
        0
    } else if cached.first().name@ == name {
        0
    } else {
        1 + cached_index(cached.drop_first(), name)
    }
}

/// A cached row with this branch name exists.
pub open spec fn has_cached(cached: Seq<CachedBranch>, name: Seq<char>) -> bool {
    cached_index(cached, name) < cached.len()
}

proof fn lemma_cached_index_at(cached: Seq<CachedBranch>, name: Seq<char>, i: int)
    requires
        0 <= i <= cached.len(),
        forall|j: int| 0 <= j < i ==> (#[trigger] cached[j]).name@ != name,
        i < cached.len() ==> cached[i].name@ == name,
    ensures
        cached_index(cached, name) == i,
    decreases i, cached.len(),
{
    if cached.len() == 0 {
    } else if i == 0 {
        if !(cached.first().name@ == name) {
            assert(cached[0].name@ == name);
        }
    } else {
        assert(cached[0].name@ != name);
        assert(forall|j: int|
            0 <= j < i - 1 ==> cached.drop_first()[j] == cached[j + 1] && (
            #[trigger] cached.drop_first()[j]).name@ != name);
        if i < cached.len() {
            assert(cached.drop_first()[i - 1] == cached[i]);
        }
        lemma_cached_index_at(cached.drop_first(), name, i - 1);
    }
}

/// The step the plan takes for one live branch: a missing name is created,
/// a present name with a differing head is updated in place, anything else
/// is left alone.  Deleted live branches are never pruned from the cache.
pub open spec fn spec_branch_step(cached: Seq<CachedBranch>, b: GitBranchListResult) -> Option<
    BranchSyncAction,
> {
    if !has_cached(cached, b.name@) {
        Some(BranchSyncAction::Create { name: b.name, head: b.head })
    } else if cached[cached_index(cached, b.name@)].head@ != b.head@ {
        Some(
            BranchSyncAction::UpdateHead {
                uid: cached[cached_index(cached, b.name@)].uid,
                head: b.head,
            },
        )
    } else {
        None
    }
}

/// The whole branch plan, one optional step per live branch, in order.
pub open spec fn spec_branch_plan(
    live: Seq<GitBranchListResult>,
    cached: Seq<CachedBranch>,
) -> Seq<BranchSyncAction>
    decreases live.len(),
{
    if live.len() == 0 {
        Seq::empty()
    } else {
        let rest = spec_branch_plan(live.drop_last(), cached);
        let step = spec_branch_step(cached, live.last());
        if step is Some {
            rest.push(step->Some_0)
        } else {
            rest
        }
    }
}

/// Compares the live branch list against the cached rows and returns the
/// additive catch-up plan.
pub fn plan_branch_sync(live: &Vec<GitBranchListResult>, cached: &Vec<CachedBranch>) -> (r: Vec<
    BranchSyncAction,
>)
    ensures
        r@ == spec_branch_plan(live@, cached@),
{
    let n = live.len();
    let nc = cached.len();
    let mut out: Vec<BranchSyncAction> = Vec::new();
    let mut i: usize = 0;
    while i < n
        invariant
            n == live@.len(),
            nc == cached@.len(),
            i <= n,
            out@ == spec_branch_plan(live@.subrange(0, i as int), cached@),
        decreases n - i,
    {
        proof {
            assert(live@.subrange(0, i as int + 1).drop_last() =~= live@.subrange(0, i as int));
            assert(live@.subrange(0, i as int + 1).last() == live@[i as int]);
        }
        let b = &live[i];
        let mut j: usize = 0;
        let mut found = false;
        while j < nc && !found
            invariant
                nc == cached@.len(),
                j <= nc,
                found ==> j < nc && cached@[j as int].name@ == b.name@,
                forall|k: int| 0 <= k < j ==> (#[trigger] cached@[k]).name@ != b.name@,
            decreases nc - j + (if found {
                0int
            } else {
                1int
            }),
        {
            if cached[j].name == b.name {
                found = true;
            } else {
                j = j + 1;
            }
        }
        proof {
            if found {
                lemma_cached_index_at(cached@, b.name@, j as int);
            } else {
                lemma_cached_index_at(cached@, b.name@, nc as int);
            }
        }
        if !found {
            out.push(BranchSyncAction::Create { name: b.name.clone(), head: b.head.clone() });
        } else if !(cached[j].head == b.head) {
            out.push(
                BranchSyncAction::UpdateHead { uid: cached[j].uid.clone(), head: b.head.clone() },
            );
        }
        i = i + 1;
    }
    proof {
        assert(live@.subrange(0, n as int) =~= live@);
    }
    out
}

/// The hashes of the commits a plan would insert: exactly the walked
/// commits whose hash is not cached yet, in walk order.
pub open spec fn spec_commit_plan(
    commits: Seq<GitCommit>,
    cached_hashes: Seq<String>,
) -> Seq<GitCommit>
    decreases commits.len(),
{
    if commits.len() == 0 {
        Seq::empty()
    } else {
        let rest = spec_commit_plan(commits.drop_last(), cached_hashes);
        if seq_contains_str(cached_hashes, commits.last().hash@) {
            rest
        } else {
            rest.push(commits.last())
        }
    }
}

/// Filters a walked commit list down to the commits the cache is missing.
pub fn plan_commit_sync(commits: &Vec<GitCommit>, cached_hashes: &Vec<String>) -> (r: Vec<
    GitCommit,
>)
    ensures
        r@ == spec_commit_plan(commits@, cached_hashes@),
{
    let n = commits.len();
    let mut out: Vec<GitCommit> = Vec::new();
    let mut i: usize = 0;
    while i < n
        invariant
            n == commits@.len(),
            i <= n,
            out@ == spec_commit_plan(commits@.subrange(0, i as int), cached_hashes@),
        decreases n - i,
    {
        proof {
            assert(commits@.subrange(0, i as int + 1).drop_last() =~= commits@.subrange(
                0,
                i as int,
            ));
            assert(commits@.subrange(0, i as int + 1).last() == commits@[i as int]);
        }
        let c = &commits[i];
        if !vec_contains_str(cached_hashes, c.hash.as_str()) {
            out.push(c.duplicate());
        }
        i = i + 1;
    }
    proof {
        assert(commits@.subrange(0, n as int) =~= commits@);
    }
    out
}

/// Replaying the sync is idempotent per commit hash: against a cache that
/// already holds every walked hash, the plan inserts nothing.
pub proof fn lemma_commit_sync_idempotent(commits: Seq<GitCommit>, cached_hashes: Seq<String>)
    requires
        forall|i: int|
            0 <= i < commits.len() ==> seq_contains_str(
                cached_hashes,
                (#[trigger] commits[i]).hash@,
            ),
    ensures
        spec_commit_plan(commits, cached_hashes) == Seq::<GitCommit>::empty(),
    decreases commits.len(),
{
    if commits.len() > 0 {
        assert(forall|i: int|
            0 <= i < commits.len() - 1 ==> commits.drop_last()[i] == commits[i]);
        lemma_commit_sync_idempotent(commits.drop_last(), cached_hashes);
        assert(commits.last() == commits[commits.len() - 1]);
    }
}

/// A cache whose rows already mirror every live branch name and head needs
/// no branch action.
pub proof fn lemma_branch_sync_stable(live: Seq<GitBranchListResult>, cached: Seq<CachedBranch>)
    requires
        forall|i: int|
            0 <= i < live.len() ==> has_cached(cached, (#[trigger] live[i]).name@) && cached[
                cached_index(cached, live[i].name@)].head@ == live[i].head@,
    ensures
        spec_branch_plan(live, cached) == Seq::<BranchSyncAction>::empty(),
    decreases live.len(),
{
    if live.len() > 0 {
        assert(forall|i: int| 0 <= i < live.len() - 1 ==> live.drop_last()[i] == live[i]);
        lemma_branch_sync_stable(live.drop_last(), cached);
        assert(live.last() == live[live.len() - 1]);
    }
}

} // verus!
