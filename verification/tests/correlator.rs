use jzfs::correlate::{GitTreeAuthors, StateTreeResult};
use jzfs::repo::AppGit;
use jzfs::tree::StateTreeParam;

fn sig3(name: &str, email: &str, t: i64) -> git2::Signature<'static> {
    git2::Signature::new(name, email, &git2::Time::new(t, 0)).unwrap()
}

// C1 adds a.txt and dir/b.txt, C2 modifies a.txt only; returns (c1, c2).
fn two_commit_repo(root: &str) -> (String, String) {
    let git = AppGit::new(root, "owner/hist");
    git.init().unwrap();
    let repo = git2::Repository::open_bare(format!("{}/owner/hist", root)).unwrap();
    let blob_a1 = repo.blob(b"a v1").unwrap();
    let blob_b = repo.blob(b"b v1").unwrap();
    let mut sub = repo.treebuilder(None).unwrap();
    sub.insert("b.txt", blob_b, 0o100644).unwrap();
    let sub_oid = sub.write().unwrap();
    let mut tb1 = repo.treebuilder(None).unwrap();
    tb1.insert("a.txt", blob_a1, 0o100644).unwrap();
    tb1.insert("dir", sub_oid, 0o040000).unwrap();
    let tree1 = repo.find_tree(tb1.write().unwrap()).unwrap();
    let s1 = sig3("alice", "alice@example.com", 100);
    let c1 = repo.commit(Some("refs/heads/main"), &s1, &s1, "c1", &tree1, &[]).unwrap();

    let blob_a2 = repo.blob(b"a v2").unwrap();
    let mut tb2 = repo.treebuilder(Some(&tree1)).unwrap();
    tb2.insert("a.txt", blob_a2, 0o100644).unwrap();
    let tree2 = repo.find_tree(tb2.write().unwrap()).unwrap();
    let s2 = sig3("carol", "carol@example.com", 200);
    let pc = repo.find_commit(c1).unwrap();
    let c2 = repo.commit(Some("refs/heads/main"), &s2, &s2, "c2", &tree2, &[&pc]).unwrap();
    repo.set_head("refs/heads/main").unwrap();
    (c1.to_string(), c2.to_string())
}

#[test]
fn correlator_credits_file_and_directory() {
    let td = tempfile::tempdir().unwrap();
    let root = td.path().to_str().unwrap().to_string();
    let (c1, c2) = two_commit_repo(&root);
    let git = AppGit::new(&root, "owner/hist");
    let res = git
        .tree_msg(StateTreeParam { head: None, branch: None, path: "".to_string() })
        .unwrap();
    assert_eq!(res.file.len(), 2);
    let mut credited: Vec<(String, String)> = res
        .file
        .iter()
        .map(|(e, idx)| {
            let mut full = e.path.clone();
            full.push_str(&e.name);
            (full, res.data[*idx].oid.clone())
        })
        .collect();
    credited.sort();
    assert_eq!(credited, vec![("a.txt".to_string(), c2), ("dir".to_string(), c1)]);
}

#[test]
fn correlator_single_commit_credits_everything_once() {
    let td = tempfile::tempdir().unwrap();
    let root = td.path().to_str().unwrap().to_string();
    let git = AppGit::new(&root, "owner/single");
    git.init().unwrap();
    let repo = git2::Repository::open_bare(format!("{}/owner/single", root)).unwrap();
    let blob = repo.blob(b"only").unwrap();
    let mut tb = repo.treebuilder(None).unwrap();
    tb.insert("one.txt", blob, 0o100644).unwrap();
    let tree = repo.find_tree(tb.write().unwrap()).unwrap();
    let s = sig3("dave", "dave@example.com", 100);
    let only = repo.commit(Some("refs/heads/main"), &s, &s, "c", &tree, &[]).unwrap();
    repo.set_head("refs/heads/main").unwrap();

    let res = git
        .tree_msg(StateTreeParam { head: None, branch: None, path: "".to_string() })
        .unwrap();
    assert_eq!(res.file.len(), 1);
    let (entry, idx) = &res.file[0];
    assert_eq!(entry.name, "one.txt");
    assert_eq!(res.data[*idx].oid, only.to_string());
    // at most once: no two pairs share an entry path
    for a in 0..res.file.len() {
        for b in a + 1..res.file.len() {
            assert_ne!(
                format!("{}{}", res.file[a].0.path, res.file[a].0.name),
                format!("{}{}", res.file[b].0.path, res.file[b].0.name)
            );
        }
    }
}

#[test]
fn author_dedup_same_pair_one_index() {
    let mut res = StateTreeResult { data: vec![], file: vec![], authors: vec![] };
    let i1 = res.insert_authors(GitTreeAuthors {
        name: "alice".to_string(),
        email: "alice@example.com".to_string(),
        time: 100,
    });
    let i2 = res.insert_authors(GitTreeAuthors {
        name: "alice".to_string(),
        email: "alice@example.com".to_string(),
        time: 999,
    });
    assert_eq!(i1, i2);
    assert_eq!(res.authors.len(), 1);
}

#[test]
fn author_dedup_same_name_different_email_two_indices() {
    let mut res = StateTreeResult { data: vec![], file: vec![], authors: vec![] };
    let i1 = res.insert_authors(GitTreeAuthors {
        name: "alice".to_string(),
        email: "alice@example.com".to_string(),
        time: 100,
    });
    let i2 = res.insert_authors(GitTreeAuthors {
        name: "alice".to_string(),
        email: "alice@else.example".to_string(),
        time: 100,
    });
    assert_ne!(i1, i2);
    assert_eq!(res.authors.len(), 2);
}

#[test]
fn correlator_dedups_authors_across_commits() {
    let td = tempfile::tempdir().unwrap();
    let root = td.path().to_str().unwrap().to_string();
    two_commit_repo(&root);
    let git = AppGit::new(&root, "owner/hist");
    let res = git
        .tree_msg(StateTreeParam { head: None, branch: None, path: "".to_string() })
        .unwrap();
    // two commits, each author == committer: two identities in total
    assert_eq!(res.authors.len(), 2);
    for d in &res.data {
        assert!(d.author < res.authors.len());
        assert!(d.committer < res.authors.len());
        assert_eq!(d.author, d.committer);
    }
}
