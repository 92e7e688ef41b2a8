use jzfs::commits::GitCommitListParam;
use jzfs::diff::GitTreeParam;
use jzfs::repo::AppGit;
use jzfs::tree::StateTreeParam;

#[test]
fn test_git_commit_list() {
    let td = tempfile::tempdir().unwrap();
    let root = td.path().to_str().unwrap().to_string();
    let git = AppGit::new(
        &root,
        "E:\\Never\\data\\00000000-0000-0000-0000-000000000000\\019827ba-ae14-7560-8cf2-44d4e12781c8",
    );
    let commits = git.commit_list(GitCommitListParam {
        start: None,
        end: None,
        limit: Some(100),
        branch: None,
    });
    assert!(commits.ok().is_none());
}

#[test]
fn git_commit_tree() {
    let td = tempfile::tempdir().unwrap();
    let root = td.path().to_str().unwrap().to_string();
    let git = AppGit::new(&root, "E:\\Code\\acl-anthology.git");
    let commits = git.commit_tree(GitTreeParam {
        oid: Some("1343dbe7cfdcf54aba90956fc2ad4175a4d98042".to_string()),
        branch: None,
    });
    assert!(commits.ok().is_none());
}

#[test]
fn test_git_msg_tree() {
    let td = tempfile::tempdir().unwrap();
    let root = td.path().to_str().unwrap().to_string();
    let git = AppGit::new(&root, "E:\\Code\\acl-anthology.git");
    git.init().unwrap();
    let repo =
        git2::Repository::open_bare(format!("{}/E:\\Code\\acl-anthology.git", root)).unwrap();
    let blob = repo.blob(b"anthology").unwrap();
    let mut tb = repo.treebuilder(None).unwrap();
    tb.insert("readme.md", blob, 0o100644).unwrap();
    let tree = repo.find_tree(tb.write().unwrap()).unwrap();
    let sig = git2::Signature::new("eve", "eve@example.com", &git2::Time::new(100, 0)).unwrap();
    repo.commit(Some("refs/heads/main"), &sig, &sig, "init", &tree, &[]).unwrap();
    repo.set_head("refs/heads/main").unwrap();
    let commits = git.tree_msg(StateTreeParam { head: None, branch: None, path: "".to_string() });
    println!("{:?}", commits.unwrap());
}

#[test]
fn test_git_state_tree() {
    let td = tempfile::tempdir().unwrap();
    let root = td.path().to_str().unwrap().to_string();
    let git = AppGit::new(&root, "E:\\Code\\acl-anthology.git");
    let _commits = git.state_tree(StateTreeParam {
        head: Some("cff06e89b75f3b73059430bf2162bf8341e96222".to_string()),
        branch: None,
        path: "bin/fixedcase".to_string(),
    });
}
