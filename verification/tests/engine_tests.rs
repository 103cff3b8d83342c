use gitfs::attr::NodeKind;
use gitfs::engine::GitFilesystem;
use gitfs::errors::FsError;
use gitfs::oid::ObjectId;

/// Creates (or reuses) a bare repository holding one tree with the given
/// entries, each a file with the given content, and returns the engine
/// mounted on that tree. Object creation is idempotent: the store is
/// content-addressed, so rerunning against a leftover directory writes the
/// same objects again.
fn mount_tree(path: &str, files: &[(&str, &[u8])]) -> GitFilesystem {
    let repo = git2::Repository::init_bare(path).expect("repository init");
    let tree = {
        let mut builder = repo.treebuilder(None).expect("treebuilder");
        for (name, content) in files {
            let blob = repo.blob(content).expect("blob write");
            builder.insert(*name, blob, 0o100644).expect("tree insert");
        }
        builder.write().expect("tree write")
    };
    let root = ObjectId::new(tree.as_bytes().to_vec());
    GitFilesystem::new(repo, root)
}

#[test]
fn end_to_end_single_file() {
    let mut fs = mount_tree("/tmp/gitfs_test_end_to_end", &[("a.txt", b"hi")]);

    let attr = fs.lookup(1, b"a.txt").expect("lookup a.txt");
    assert_eq!(attr.kind, NodeKind::RegularFile);
    assert_eq!(attr.size, 2);
    assert_eq!(attr.blocks, 1);
    assert_eq!(attr.ino, 2);

    assert_eq!(fs.read(2, 0, 2).expect("full read"), b"hi".to_vec());
    assert_eq!(fs.read(2, 1, 5).expect("tail read"), b"i".to_vec());
    assert_eq!(fs.read(2, 5, 5).expect("past-end read"), Vec::<u8>::new());

    let listing = fs.readdir(1, 0).expect("initial readdir");
    let summary: Vec<(u64, u64, NodeKind, &[u8])> = listing
        .iter()
        .map(|e| (e.ino, e.position, e.kind, e.name.as_slice()))
        .collect();
    assert_eq!(
        summary,
        vec![
            (1, 0, NodeKind::Directory, b".".as_slice()),
            (1, 1, NodeKind::Directory, b"..".as_slice()),
            (2, 2, NodeKind::RegularFile, b"a.txt".as_slice()),
        ]
    );

    let end = fs.readdir(1, 3).expect("terminating readdir");
    assert!(end.is_empty());
}

#[test]
fn unknown_name_is_not_found() {
    let mut fs = mount_tree("/tmp/gitfs_test_unknown_name", &[("a.txt", b"hi")]);
    assert_eq!(fs.lookup(1, b"missing"), Err(FsError::NotFound));
    // the failed lookup interned nothing: the next allocation is still inode 2
    let attr = fs.lookup(1, b"a.txt").expect("lookup after the miss");
    assert_eq!(attr.ino, 2);
}

#[test]
fn unknown_inode_is_reported_and_service_continues() {
    let fs = mount_tree("/tmp/gitfs_test_unknown_inode", &[("a.txt", b"hi")]);
    assert_eq!(fs.getattr(9999), Err(FsError::InternalInconsistency));
    let root = fs.getattr(1).expect("root attributes after the failure");
    assert_eq!(root.kind, NodeKind::Directory);
    assert_eq!(root.size, 0);
    assert_eq!(root.ino, 1);
}

#[test]
fn getattr_agrees_with_lookup() {
    let mut fs = mount_tree(
        "/tmp/gitfs_test_attr_consistency",
        &[("a.txt", b"hi"), ("longer.bin", b"0123456789")],
    );
    for name in [b"a.txt".as_slice(), b"longer.bin".as_slice()] {
        let looked = fs.lookup(1, name).expect("lookup");
        let direct = fs.getattr(looked.ino).expect("getattr");
        assert_eq!(direct.kind, looked.kind);
        assert_eq!(direct.size, looked.size);
        assert_eq!(direct, looked);
    }
}

#[test]
fn consecutive_initial_readdirs_agree() {
    let mut fs = mount_tree(
        "/tmp/gitfs_test_readdir_determinism",
        &[("b.txt", b"bee"), ("a.txt", b"ay"), ("c.txt", b"sea")],
    );
    let first = fs.readdir(1, 0).expect("first listing");
    let second = fs.readdir(1, 0).expect("second listing");
    assert_eq!(first.len(), second.len());
    for (x, y) in first.iter().zip(second.iter()) {
        assert_eq!(x.ino, y.ino);
        assert_eq!(x.position, y.position);
        assert_eq!(x.kind, y.kind);
        assert_eq!(x.name, y.name);
    }
}

#[test]
fn read_clamps_to_content_length() {
    let fs = mount_tree("/tmp/gitfs_test_read_clamp", &[("ten.bin", b"0123456789")]);
    let mut fs = fs;
    let attr = fs.lookup(1, b"ten.bin").expect("lookup");
    assert_eq!(attr.size, 10);
    // offset at the length: zero bytes
    assert_eq!(fs.read(attr.ino, 10, 4).expect("read at end"), Vec::<u8>::new());
    // offset past the length: zero bytes
    assert_eq!(fs.read(attr.ino, 11, 4).expect("read past end"), Vec::<u8>::new());
    // range running past the end: exactly the trailing bytes
    assert_eq!(fs.read(attr.ino, 7, 100).expect("tail read"), b"789".to_vec());
    // fully inside: exactly the requested bytes
    assert_eq!(fs.read(attr.ino, 2, 3).expect("inner read"), b"234".to_vec());
}

#[test]
fn reading_a_directory_is_a_type_mismatch() {
    let fs = mount_tree("/tmp/gitfs_test_read_dir", &[("a.txt", b"hi")]);
    assert_eq!(fs.read(1, 0, 10), Err(FsError::TypeMismatch));
}

#[test]
fn invalid_cursor_is_an_internal_inconsistency() {
    let mut fs = mount_tree("/tmp/gitfs_test_bad_cursor", &[("a.txt", b"hi")]);
    assert_eq!(fs.readdir(1, 1), Err(FsError::InternalInconsistency));
    assert_eq!(fs.readdir(1, 2), Err(FsError::InternalInconsistency));
    assert_eq!(fs.readdir(1, 99), Err(FsError::InternalInconsistency));
    // the valid terminator for one child is 3, and service continues
    assert!(fs.readdir(1, 3).expect("terminator").is_empty());
}

#[test]
fn listing_an_unbound_inode_is_not_found() {
    let mut fs = mount_tree("/tmp/gitfs_test_readdir_unbound", &[("a.txt", b"hi")]);
    assert_eq!(fs.readdir(77, 0), Err(FsError::NotFound));
}

#[test]
fn looking_up_in_a_file_is_not_found() {
    let mut fs = mount_tree("/tmp/gitfs_test_lookup_in_file", &[("a.txt", b"hi")]);
    let attr = fs.lookup(1, b"a.txt").expect("lookup");
    assert_eq!(fs.lookup(attr.ino, b"x"), Err(FsError::NotFound));
}

#[test]
fn nested_directories_get_their_own_inodes() {
    let path = "/tmp/gitfs_test_nested";
    let repo = git2::Repository::init_bare(path).expect("repository init");
    let outer_tree = {
        let blob = repo.blob(b"deep").expect("blob write");
        let mut inner = repo.treebuilder(None).expect("inner treebuilder");
        inner.insert("leaf.txt", blob, 0o100644).expect("inner insert");
        let inner_tree = inner.write().expect("inner tree write");
        let mut outer = repo.treebuilder(None).expect("outer treebuilder");
        outer.insert("sub", inner_tree, 0o040000).expect("outer insert");
        outer.write().expect("outer tree write")
    };
    let root = ObjectId::new(outer_tree.as_bytes().to_vec());
    let mut fs = GitFilesystem::new(repo, root);

    let sub = fs.lookup(1, b"sub").expect("lookup sub");
    assert_eq!(sub.kind, NodeKind::Directory);
    assert_eq!(sub.size, 0);
    assert_eq!(sub.ino, 2);

    let leaf = fs.lookup(sub.ino, b"leaf.txt").expect("lookup leaf");
    assert_eq!(leaf.kind, NodeKind::RegularFile);
    assert_eq!(leaf.size, 4);
    assert_eq!(leaf.ino, 3);
    assert_eq!(fs.read(leaf.ino, 0, 10).expect("read leaf"), b"deep".to_vec());
}

#[test]
fn unsupported_entry_kind_fails_the_request_only() {
    let path = "/tmp/gitfs_test_unsupported";
    let repo = git2::Repository::init_bare(path).expect("repository init");
    let mixed_tree = {
        let blob = repo.blob(b"hi").expect("blob write");
        let mut tb = repo.treebuilder(None).expect("treebuilder");
        tb.insert("a.txt", blob, 0o100644).expect("insert blob");
        let plain_tree = tb.write().expect("plain tree write");
        let sig = git2::Signature::now("t", "t@example.invalid").expect("signature");
        let tree_obj = repo.find_tree(plain_tree).expect("find tree");
        let commit = repo
            .commit(None, &sig, &sig, "snapshot", &tree_obj, &[])
            .expect("commit write");
        let mut tb2 = repo.treebuilder(None).expect("second treebuilder");
        tb2.insert("a.txt", blob, 0o100644).expect("insert blob again");
        tb2.insert("sub", commit, 0o160000).expect("insert commit entry");
        tb2.write().expect("mixed tree write")
    };
    let root = ObjectId::new(mixed_tree.as_bytes().to_vec());
    let mut fs = GitFilesystem::new(repo, root);

    assert_eq!(fs.lookup(1, b"sub"), Err(FsError::UnsupportedObject));
    // the blob entry still works afterwards
    let attr = fs.lookup(1, b"a.txt").expect("lookup after failure");
    assert_eq!(attr.kind, NodeKind::RegularFile);
}
