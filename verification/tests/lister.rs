use jzfs::repo::AppGit;
use jzfs::strutil::normalize_dir;
use jzfs::tree::{GitTreeStateFileMapMiddleData, RawTreeEntry, StateTreeParam, TreeEntryKind, list_dir};

fn sig2(t: i64) -> git2::Signature<'static> {
    git2::Signature::new("bob", "bob@example.com", &git2::Time::new(t, 0)).unwrap()
}

// One commit on `main` holding `a.txt` and `dir/b.txt`.
fn tree_repo(root: &str) -> String {
    let git = AppGit::new(root, "owner/tree");
    git.init().unwrap();
    let repo = git2::Repository::open_bare(format!("{}/owner/tree", root)).unwrap();
    let blob_a = repo.blob(b"aaa").unwrap();
    let blob_b = repo.blob(b"bbb").unwrap();
    let mut sub = repo.treebuilder(None).unwrap();
    sub.insert("b.txt", blob_b, 0o100644).unwrap();
    let sub_oid = sub.write().unwrap();
    let mut tb = repo.treebuilder(None).unwrap();
    tb.insert("a.txt", blob_a, 0o100644).unwrap();
    tb.insert("dir", sub_oid, 0o040000).unwrap();
    let tree = repo.find_tree(tb.write().unwrap()).unwrap();
    let s = sig2(100);
    let oid = repo.commit(Some("refs/heads/main"), &s, &s, "c1", &tree, &[]).unwrap();
    repo.set_head("refs/heads/main").unwrap();
    oid.to_string()
}

#[test]
fn normalize_directory_paths() {
    assert_eq!(normalize_dir(""), "");
    assert_eq!(normalize_dir("/"), "");
    assert_eq!(normalize_dir("dir"), "dir/");
    assert_eq!(normalize_dir("dir/"), "dir/");
    assert_eq!(normalize_dir("a//b"), "a/b/");
    assert_eq!(normalize_dir("/a/b/c"), "a/b/c/");
    // whitespace around a segment is trimmed; segments of pure whitespace
    // are dropped
    assert_eq!(normalize_dir(" a"), "a/");
    assert_eq!(normalize_dir("a / b "), "a/b/");
    assert_eq!(normalize_dir(" \t "), "");
    assert_eq!(normalize_dir("a/ /b"), "a/b/");
    // whitespace inside a segment stays
    assert_eq!(normalize_dir("a b"), "a b/");
}

#[test]
fn list_dir_filters_to_one_level() {
    let entries = vec![
        RawTreeEntry { root: "".to_string(), name: "a.txt".to_string(), kind: TreeEntryKind::Blob },
        RawTreeEntry { root: "".to_string(), name: "dir".to_string(), kind: TreeEntryKind::Tree },
        RawTreeEntry { root: "dir/".to_string(), name: "b.txt".to_string(), kind: TreeEntryKind::Blob },
    ];
    let top = list_dir(&entries, "");
    assert_eq!(top.len(), 2);
    assert_eq!(top[0].name, "a.txt");
    assert_eq!(top[0].rtype, "blob");
    assert_eq!(top[1].name, "dir");
    assert_eq!(top[1].rtype, "tree");
    let sub = list_dir(&entries, "dir/");
    assert_eq!(sub.len(), 1);
    assert_eq!(sub[0].name, "b.txt");
    assert_eq!(sub[0].path, "dir/");
}

#[test]
fn state_tree_lists_root() {
    let td = tempfile::tempdir().unwrap();
    let root = td.path().to_str().unwrap().to_string();
    tree_repo(&root);
    let git = AppGit::new(&root, "owner/tree");
    let listing = git
        .state_tree(StateTreeParam { head: None, branch: None, path: "".to_string() })
        .unwrap();
    let mut names: Vec<(String, String)> =
        listing.iter().map(|e| (e.name.clone(), e.rtype.clone())).collect();
    names.sort();
    assert_eq!(
        names,
        vec![("a.txt".to_string(), "blob".to_string()), ("dir".to_string(), "tree".to_string())]
    );
}

#[test]
fn state_tree_missing_directory_is_empty_not_error() {
    let td = tempfile::tempdir().unwrap();
    let root = td.path().to_str().unwrap().to_string();
    tree_repo(&root);
    let git = AppGit::new(&root, "owner/tree");
    let listing = git
        .state_tree(StateTreeParam { head: None, branch: None, path: "never/was".to_string() })
        .unwrap();
    assert!(listing.is_empty());
}

#[test]
fn entry_to_path_joins_parent_and_name() {
    let e = GitTreeStateFileMapMiddleData {
        path: "dir/".to_string(),
        name: "b.txt".to_string(),
        rtype: "blob".to_string(),
    };
    assert_eq!(e.to_path(), "dir/b.txt");
}
