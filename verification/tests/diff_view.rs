use jzfs::diff::{GitTreeParam, RawDelta, deltas_view, status_name};
use jzfs::repo::AppGit;

#[test]
fn status_codes_named_in_libgit2_order() {
    assert_eq!(status_name(0), "unmodified");
    assert_eq!(status_name(1), "added");
    assert_eq!(status_name(2), "deleted");
    assert_eq!(status_name(3), "modified");
    assert_eq!(status_name(4), "renamed");
    assert_eq!(status_name(5), "copied");
    assert_eq!(status_name(6), "ignored");
    assert_eq!(status_name(7), "untracked");
    assert_eq!(status_name(8), "typechange");
    assert_eq!(status_name(9), "unreadable");
    assert_eq!(status_name(10), "conflicted");
}

#[test]
fn deltas_mapped_row_for_row() {
    let raw = vec![
        RawDelta { status: 1, old_path: "".to_string(), new_path: "a.txt".to_string() },
        RawDelta { status: 3, old_path: "b.txt".to_string(), new_path: "b.txt".to_string() },
    ];
    let view = deltas_view(&raw);
    assert_eq!(view.len(), 2);
    assert_eq!(view[0].status, "added");
    assert_eq!(view[0].new_file.as_ref().unwrap().path, "a.txt");
    assert_eq!(view[1].status, "modified");
    assert_eq!(view[1].old_file.as_ref().unwrap().path, "b.txt");
}

#[test]
fn commit_diff_against_parent_and_root() {
    let td = tempfile::tempdir().unwrap();
    let root = td.path().to_str().unwrap().to_string();
    let git = AppGit::new(&root, "owner/diff");
    git.init().unwrap();
    let repo = git2::Repository::open_bare(format!("{}/owner/diff", root)).unwrap();
    let sig = git2::Signature::new("fay", "fay@example.com", &git2::Time::new(100, 0)).unwrap();
    let blob1 = repo.blob(b"v1").unwrap();
    let mut tb1 = repo.treebuilder(None).unwrap();
    tb1.insert("f.txt", blob1, 0o100644).unwrap();
    let tree1 = repo.find_tree(tb1.write().unwrap()).unwrap();
    let c1 = repo.commit(Some("refs/heads/main"), &sig, &sig, "c1", &tree1, &[]).unwrap();
    let blob2 = repo.blob(b"v2").unwrap();
    let mut tb2 = repo.treebuilder(Some(&tree1)).unwrap();
    tb2.insert("f.txt", blob2, 0o100644).unwrap();
    let tree2 = repo.find_tree(tb2.write().unwrap()).unwrap();
    let pc = repo.find_commit(c1).unwrap();
    let sig2 = git2::Signature::new("fay", "fay@example.com", &git2::Time::new(200, 0)).unwrap();
    let c2 = repo.commit(Some("refs/heads/main"), &sig2, &sig2, "c2", &tree2, &[&pc]).unwrap();
    repo.set_head("refs/heads/main").unwrap();

    // root diff of the parentless commit: one added file
    let r1 = git
        .commit_tree(GitTreeParam { oid: Some(c1.to_string()), branch: None })
        .unwrap();
    assert_eq!(r1.data.len(), 1);
    assert_eq!(r1.data[0].status, "added");
    // diff of the child against its parent: one modified file
    let r2 = git
        .commit_tree(GitTreeParam { oid: Some(c2.to_string()), branch: None })
        .unwrap();
    assert_eq!(r2.data.len(), 1);
    assert_eq!(r2.data[0].status, "modified");
    assert_eq!(r2.data[0].new_file.as_ref().unwrap().path, "f.txt");
    // malformed explicit id
    let bad = git.commit_tree(GitTreeParam { oid: Some("zzz".to_string()), branch: None });
    assert_eq!(bad.unwrap_err(), jzfs::error::GitError::NotFound);
}

#[test]
fn repo_exists_requires_valid_bare_repository() {
    let td = tempfile::tempdir().unwrap();
    let root = td.path().to_str().unwrap().to_string();
    let git = AppGit::new(&root, "owner/presence");
    assert!(!git.repo_exists());
    git.init().unwrap();
    assert!(git.repo_exists());
}

#[test]
fn init_refuses_an_existing_repository() {
    let td = tempfile::tempdir().unwrap();
    let root = td.path().to_str().unwrap().to_string();
    let git = AppGit::new(&root, "owner/twice");
    git.init().unwrap();
    assert!(git.repo_exists());
    assert_eq!(git.init().unwrap_err(), jzfs::error::GitError::Conflict);
    // the existing repository is untouched and still opens
    assert!(git.repo_exists());
}
