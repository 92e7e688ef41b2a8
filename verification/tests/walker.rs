use jzfs::commits::{GitCommit, GitCommitListParam, select_range};
use jzfs::repo::AppGit;

fn sig(t: i64) -> git2::Signature<'static> {
    git2::Signature::new("alice", "alice@example.com", &git2::Time::new(t, 0)).unwrap()
}

// A walked commit with the given id, newest first by falling timestamp.
fn walked(v: &[&str]) -> Vec<GitCommit> {
    v.iter()
        .enumerate()
        .map(|(i, s)| GitCommit {
            hash: s.to_string(),
            author: "alice".to_string(),
            email: "alice@example.com".to_string(),
            committer: "alice".to_string(),
            committer_email: "alice@example.com".to_string(),
            message: "m".to_string(),
            timestamp: 1000 - i as i64,
        })
        .collect()
}

fn hashes(v: &[GitCommit]) -> Vec<String> {
    v.iter().map(|c| c.hash.clone()).collect()
}

// A linear history of five commits on `main`, oldest first; returns the
// commit ids newest first (walk order).
fn linear_repo(root: &str, n: usize) -> Vec<String> {
    let git = AppGit::new(root, "owner/walk");
    git.init().unwrap();
    let repo = git2::Repository::open_bare(format!("{}/owner/walk", root)).unwrap();
    let mut parent: Option<git2::Oid> = None;
    let mut all = Vec::new();
    for i in 0..n {
        let blob = repo.blob(format!("content {}", i).as_bytes()).unwrap();
        let mut tb = repo.treebuilder(None).unwrap();
        tb.insert("a.txt", blob, 0o100644).unwrap();
        let tree = repo.find_tree(tb.write().unwrap()).unwrap();
        let s = sig(100 + 100 * i as i64);
        let oid = match parent {
            Some(p) => {
                let pc = repo.find_commit(p).unwrap();
                repo.commit(Some("refs/heads/main"), &s, &s, &format!("c{}", i), &tree, &[&pc])
                    .unwrap()
            }
            None => repo
                .commit(Some("refs/heads/main"), &s, &s, &format!("c{}", i), &tree, &[])
                .unwrap(),
        };
        parent = Some(oid);
        all.push(oid.to_string());
    }
    repo.set_head("refs/heads/main").unwrap();
    all.reverse();
    all
}

#[test]
fn walk_unbounded_returns_all_in_time_order() {
    let td = tempfile::tempdir().unwrap();
    let root = td.path().to_str().unwrap().to_string();
    let walk = linear_repo(&root, 5);
    let git = AppGit::new(&root, "owner/walk");
    let res = git
        .commit_list(GitCommitListParam { start: None, end: None, limit: None, branch: None })
        .unwrap();
    assert_eq!(res.total, 5);
    assert_eq!(res.data.len(), 5);
    let got: Vec<String> = res.data.iter().map(|c| c.hash.clone()).collect();
    assert_eq!(got, walk);
    for w in res.data.windows(2) {
        assert!(w[0].timestamp >= w[1].timestamp);
    }
}

#[test]
fn walk_limit_caps_data_not_total() {
    let td = tempfile::tempdir().unwrap();
    let root = td.path().to_str().unwrap().to_string();
    let walk = linear_repo(&root, 5);
    let git = AppGit::new(&root, "owner/walk");
    let res = git
        .commit_list(GitCommitListParam { start: None, end: None, limit: Some(2), branch: None })
        .unwrap();
    assert_eq!(res.total, 5);
    assert_eq!(res.data.len(), 2);
    assert_eq!(res.data[0].hash, walk[0]);
    assert_eq!(res.data[1].hash, walk[1]);
}

#[test]
fn walk_range_is_contiguous_inclusive() {
    let td = tempfile::tempdir().unwrap();
    let root = td.path().to_str().unwrap().to_string();
    let walk = linear_repo(&root, 5);
    let git = AppGit::new(&root, "owner/walk");
    let res = git
        .commit_list(GitCommitListParam {
            start: Some(walk[1].clone()),
            end: Some(walk[3].clone()),
            limit: None,
            branch: None,
        })
        .unwrap();
    assert_eq!(res.total, 5);
    let got: Vec<String> = res.data.iter().map(|c| c.hash.clone()).collect();
    assert_eq!(got, vec![walk[1].clone(), walk[2].clone(), walk[3].clone()]);
}

#[test]
fn walk_malformed_boundary_is_not_found() {
    let td = tempfile::tempdir().unwrap();
    let root = td.path().to_str().unwrap().to_string();
    linear_repo(&root, 2);
    let git = AppGit::new(&root, "owner/walk");
    let res = git.commit_list(GitCommitListParam {
        start: Some("not-a-hash".to_string()),
        end: None,
        limit: None,
        branch: None,
    });
    assert_eq!(res.unwrap_err(), jzfs::error::GitError::NotFound);
}

#[test]
fn select_unbounded_emits_everything() {
    let v = walked(&["e", "d", "c", "b", "a"]);
    let r = select_range(&v, &None, &None, &None);
    assert_eq!(hashes(&r), hashes(&v));
}

#[test]
fn select_range_start_to_end_inclusive() {
    let v = walked(&["e", "d", "c", "b", "a"]);
    let r = select_range(&v, &Some("d".to_string()), &Some("b".to_string()), &None);
    assert_eq!(hashes(&r), vec!["d", "c", "b"]);
}

#[test]
fn select_limit_prefix_only() {
    let v = walked(&["e", "d", "c", "b", "a"]);
    let r = select_range(&v, &None, &None, &Some(3));
    assert_eq!(hashes(&r), vec!["e", "d", "c"]);
    let r0 = select_range(&v, &None, &None, &Some(0));
    assert!(r0.is_empty());
}

#[test]
fn select_start_absent_emits_nothing() {
    let v = walked(&["c", "b", "a"]);
    let r = select_range(&v, &Some("zz".to_string()), &None, &None);
    assert!(r.is_empty());
}

#[test]
fn select_end_only_emits_head_through_end() {
    let v = walked(&["c", "b", "a"]);
    let r = select_range(&v, &None, &Some("b".to_string()), &None);
    assert_eq!(hashes(&r), vec!["c", "b"]);
}
