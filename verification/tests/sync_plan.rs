use jzfs::branches::GitBranchListResult;
use jzfs::commits::GitCommit;
use jzfs::sync::{BranchSyncAction, CachedBranch, plan_branch_sync, plan_commit_sync};

fn live(name: &str, head: &str) -> GitBranchListResult {
    GitBranchListResult {
        name: name.to_string(),
        head: head.to_string(),
        time: "100".to_string(),
        default: true,
    }
}

fn cached(uid: &str, name: &str, head: &str) -> CachedBranch {
    CachedBranch { uid: uid.to_string(), name: name.to_string(), head: head.to_string() }
}

fn commit(hash: &str) -> GitCommit {
    GitCommit {
        hash: hash.to_string(),
        author: "alice".to_string(),
        email: "alice@example.com".to_string(),
        committer: "alice".to_string(),
        committer_email: "alice@example.com".to_string(),
        message: "m".to_string(),
        timestamp: 100,
    }
}

#[test]
fn branch_plan_creates_updates_and_skips() {
    let lv = vec![live("main", "aa"), live("dev", "bb"), live("same", "cc")];
    let ca = vec![cached("u1", "dev", "old"), cached("u2", "same", "cc")];
    let plan = plan_branch_sync(&lv, &ca);
    assert_eq!(plan.len(), 2);
    match &plan[0] {
        BranchSyncAction::Create { name, head } => {
            assert_eq!(name, "main");
            assert_eq!(head, "aa");
        }
        _ => panic!("expected a create step"),
    }
    match &plan[1] {
        BranchSyncAction::UpdateHead { uid, head } => {
            assert_eq!(uid, "u1");
            assert_eq!(head, "bb");
        }
        _ => panic!("expected an update step"),
    }
}

#[test]
fn branch_plan_stable_cache_plans_nothing() {
    let lv = vec![live("main", "aa")];
    let ca = vec![cached("u1", "main", "aa")];
    assert!(plan_branch_sync(&lv, &ca).is_empty());
}

#[test]
fn commit_plan_inserts_only_missing_hashes() {
    let commits = vec![commit("h1"), commit("h2"), commit("h3")];
    let cached_hashes = vec!["h2".to_string()];
    let plan = plan_commit_sync(&commits, &cached_hashes);
    let hashes: Vec<String> = plan.iter().map(|c| c.hash.clone()).collect();
    assert_eq!(hashes, vec!["h1".to_string(), "h3".to_string()]);
}

#[test]
fn commit_plan_is_idempotent_per_hash() {
    let commits = vec![commit("h1"), commit("h2")];
    let all = vec!["h1".to_string(), "h2".to_string()];
    assert!(plan_commit_sync(&commits, &all).is_empty());
}
