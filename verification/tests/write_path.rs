use jzfs::correlate::GitTreeAuthors;
use jzfs::repo::AppGit;
use jzfs::write::{GitBlobInsertDataParam, branch_name_valid};

fn ident(t: i64) -> GitTreeAuthors {
    GitTreeAuthors { name: "alice".to_string(), email: "alice@example.com".to_string(), time: t }
}

fn write_param(branch: &str, path: &str, file: &str, content: &[u8], t: i64) -> GitBlobInsertDataParam {
    GitBlobInsertDataParam {
        path: path.to_string(),
        file_name: file.to_string(),
        branch: branch.to_string(),
        message: format!("write {}", file),
        content: content.to_vec(),
        author: ident(t),
        committer: ident(t),
    }
}

#[test]
fn branch_names_validated() {
    assert!(branch_name_valid("main"));
    assert!(branch_name_valid("feature/x"));
    assert!(branch_name_valid("v1.2"));
    assert!(branch_name_valid("a@b"));
    assert!(!branch_name_valid("-lead"));
    assert!(!branch_name_valid("a..b"));
    assert!(!branch_name_valid("topic.lock"));
    assert!(!branch_name_valid(""));
    assert!(!branch_name_valid("has space"));
    assert!(!branch_name_valid("a//b"));
    assert!(!branch_name_valid("/lead"));
    assert!(!branch_name_valid("trail/"));
    assert!(!branch_name_valid("dot."));
    assert!(!branch_name_valid("a@{b"));
    assert!(!branch_name_valid("@"));
    assert!(!branch_name_valid("col:on"));
    assert!(!branch_name_valid("back\\slash"));
    assert!(!branch_name_valid(".hidden"));
    assert!(!branch_name_valid("a/.b"));
}

#[test]
fn write_rejects_invalid_branch_name() {
    let td = tempfile::tempdir().unwrap();
    let root = td.path().to_str().unwrap().to_string();
    let git = AppGit::new(&root, "owner/wp");
    git.init().unwrap();
    let r = git.insert_blob(write_param("bad..name", "", "f.txt", b"x", 100));
    assert_eq!(r.unwrap_err(), jzfs::error::GitError::Validation);
}

#[test]
fn write_first_commit_creates_branch() {
    let td = tempfile::tempdir().unwrap();
    let root = td.path().to_str().unwrap().to_string();
    let git = AppGit::new(&root, "owner/wp");
    git.init().unwrap();
    let id = git.insert_blob(write_param("main", "", "readme.md", b"hello", 100)).unwrap();
    assert_eq!(id.len(), 40);
    let branches = git.branch_list().unwrap();
    assert_eq!(branches.len(), 1);
    assert_eq!(branches[0].name, "main");
    assert_eq!(branches[0].head, id);
    let bytes = git.cat_file(Some("main".to_string()), None, "readme.md").unwrap();
    assert_eq!(bytes, b"hello");
}

#[test]
fn write_second_commit_advances_branch_once() {
    let td = tempfile::tempdir().unwrap();
    let root = td.path().to_str().unwrap().to_string();
    let git = AppGit::new(&root, "owner/wp");
    git.init().unwrap();
    let c1 = git.insert_blob(write_param("main", "", "a.txt", b"one", 100)).unwrap();
    let c2 = git.insert_blob(write_param("main", "", "b.txt", b"two", 200)).unwrap();
    assert_ne!(c1, c2);
    let branches = git.branch_list().unwrap();
    assert_eq!(branches[0].head, c2);
    // the previous file is still in the tree: the new tree copies the base
    assert_eq!(git.cat_file(Some("main".to_string()), None, "a.txt").unwrap(), b"one");
    assert_eq!(git.cat_file(Some("main".to_string()), None, "b.txt").unwrap(), b"two");
}

#[test]
fn blob_content_addressing_is_idempotent() {
    let td = tempfile::tempdir().unwrap();
    let root = td.path().to_str().unwrap().to_string();
    let git = AppGit::new(&root, "owner/wp");
    git.init().unwrap();
    let repo = git2::Repository::open_bare(format!("{}/owner/wp", root)).unwrap();
    let o1 = repo.blob(b"same bytes").unwrap();
    let o2 = repo.blob(b"same bytes").unwrap();
    assert_eq!(o1, o2);
    // and through the library: the same content written on two branches
    // reads back identically and resolves to one object id
    git.insert_blob(write_param("main", "", "f.txt", b"same bytes", 100)).unwrap();
    git.insert_blob(write_param("other", "", "f.txt", b"same bytes", 200)).unwrap();
    let h1 = repo
        .find_branch("main", git2::BranchType::Local)
        .unwrap()
        .get()
        .peel_to_tree()
        .unwrap()
        .get_name("f.txt")
        .unwrap()
        .id();
    let h2 = repo
        .find_branch("other", git2::BranchType::Local)
        .unwrap()
        .get()
        .peel_to_tree()
        .unwrap()
        .get_name("f.txt")
        .unwrap()
        .id();
    assert_eq!(h1, h2);
}

#[test]
fn write_into_subdirectory_creates_parents() {
    let td = tempfile::tempdir().unwrap();
    let root = td.path().to_str().unwrap().to_string();
    let git = AppGit::new(&root, "owner/wp");
    git.init().unwrap();
    git.insert_blob(write_param("main", "", "readme.md", b"top", 100)).unwrap();
    git.insert_blob(write_param("main", "docs", "guide.md", b"deep", 200)).unwrap();
    git.insert_blob(write_param("main", "docs/sub", "note.md", b"deeper", 300)).unwrap();
    assert_eq!(git.cat_file(Some("main".to_string()), None, "readme.md").unwrap(), b"top");
    assert_eq!(git.cat_file(Some("main".to_string()), None, "docs/guide.md").unwrap(), b"deep");
    assert_eq!(
        git.cat_file(Some("main".to_string()), None, "docs/sub/note.md").unwrap(),
        b"deeper"
    );
    let listing = git
        .state_tree(jzfs::tree::StateTreeParam {
            head: None,
            branch: Some("main".to_string()),
            path: "".to_string(),
        })
        .unwrap();
    let mut names: Vec<(String, String)> =
        listing.iter().map(|e| (e.name.clone(), e.rtype.clone())).collect();
    names.sort();
    assert_eq!(
        names,
        vec![
            ("docs".to_string(), "tree".to_string()),
            ("readme.md".to_string(), "blob".to_string())
        ]
    );
}

#[test]
fn write_rejects_nul_in_path() {
    let td = tempfile::tempdir().unwrap();
    let root = td.path().to_str().unwrap().to_string();
    let git = AppGit::new(&root, "owner/wp");
    git.init().unwrap();
    let r = git.insert_blob(write_param("main", "", "bad\0name", b"x", 100));
    assert_eq!(r.unwrap_err(), jzfs::error::GitError::Validation);
}

#[test]
fn failed_write_leaves_branch_reference_unchanged() {
    let td = tempfile::tempdir().unwrap();
    let root = td.path().to_str().unwrap().to_string();
    let git = AppGit::new(&root, "owner/wp");
    git.init().unwrap();
    let c1 = git.insert_blob(write_param("main", "", "a.txt", b"one", 100)).unwrap();
    // an identity with an angle bracket is refused by the signature
    // constructor, so this write fails after the tree is built but before
    // any commit is created
    let mut p = write_param("main", "", "b.txt", b"two", 200);
    p.author.name = "bad<one".to_string();
    let r = git.insert_blob(p);
    assert!(r.is_err());
    let branches = git.branch_list().unwrap();
    assert_eq!(branches.len(), 1);
    assert_eq!(branches[0].head, c1);
}

#[test]
fn failed_write_on_fresh_repository_leaves_no_branch() {
    let td = tempfile::tempdir().unwrap();
    let root = td.path().to_str().unwrap().to_string();
    let git = AppGit::new(&root, "owner/wp");
    git.init().unwrap();
    // same forced failure between tree build and commit creation, with no
    // prior tip: the branch must still be absent afterwards
    let mut p = write_param("main", "", "b.txt", b"two", 100);
    p.committer.email = "no<where".to_string();
    let r = git.insert_blob(p);
    assert!(r.is_err());
    assert!(git.branch_list().unwrap().is_empty());
}
