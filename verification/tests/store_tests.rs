use yakd::ids::Id;
use yakd::objects::{Commit, File, Symlink, Tree, TreeEntry, TreeEntryMapping};
use yakd::service::{JujutsuService, ServiceError};
use yakd::store::Store;
use yakd::vfs_mgr::VfsManagerConfig;

fn test_config() -> VfsManagerConfig {
    VfsManagerConfig { min_nfs_port: 11000, max_nfs_port: 11999 }
}

fn bare_commit() -> Commit {
    Commit {
        parents: vec![],
        predecessors: vec![],
        root_tree: Id::sentinel(),
        uses_tree_conflict_format: false,
        change_id: vec![],
        description: String::new(),
        author: None,
        committer: None,
    }
}

#[test]
fn write_commit_parents() {
    let mut svc = JujutsuService::new(test_config());
    let mut commit = bare_commit();

    // No parents
    commit.parents = vec![];
    let res = svc.write_commit(commit.clone());
    assert!(matches!(res, Err(e) if e.message().contains("no parents")));

    // Only root commit as parent
    commit.parents = vec![Id::sentinel()];
    let first_id = svc.write_commit(commit.clone()).unwrap();
    let first_commit = svc.read_commit(&first_id).unwrap();
    assert_eq!(first_commit, commit);

    // Only non-root commit as parent
    commit.parents = vec![first_id];
    let second_id = svc.write_commit(commit.clone()).unwrap();
    let second_commit = svc.read_commit(&second_id).unwrap();
    assert_eq!(second_commit, commit);

    // Merge commit
    commit.parents = vec![first_id, second_id];
    let merge_id = svc.write_commit(commit.clone()).unwrap();
    let merge_commit = svc.read_commit(&merge_id).unwrap();
    assert_eq!(merge_commit, commit);

    commit.parents = vec![first_id, Id([0u8; 32])];
    let root_merge_id = svc.write_commit(commit.clone()).unwrap();
    let root_merge_commit = svc.read_commit(&root_merge_id).unwrap();
    assert_eq!(root_merge_commit, commit);
}

#[test]
fn file_round_trip() {
    let mut store = Store::new();
    let file = File { content: b"some bytes".to_vec() };
    let id = store.write_file(file.clone());
    assert_eq!(store.get_file(&id), Some(file));
}

#[test]
fn symlink_round_trip() {
    let mut store = Store::new();
    let link = Symlink { target: "../target/path".to_string() };
    let id = store.write_symlink(link.clone());
    assert_eq!(store.get_symlink(&id), Some(link));
}

#[test]
fn tree_round_trip_order_preserved() {
    let mut store = Store::new();
    let a = store.write_file(File { content: b"a".to_vec() });
    let b = store.write_file(File { content: b"b".to_vec() });
    let tree = Tree {
        entries: vec![
            TreeEntryMapping { name: "beta".to_string(), entry: TreeEntry::File { id: b, executable: true } },
            TreeEntryMapping { name: "alpha".to_string(), entry: TreeEntry::File { id: a, executable: false } },
            TreeEntryMapping { name: "sub".to_string(), entry: TreeEntry::TreeId(Id([7u8; 32])) },
            TreeEntryMapping { name: "link".to_string(), entry: TreeEntry::SymlinkId(Id([8u8; 32])) },
            TreeEntryMapping { name: "conflict".to_string(), entry: TreeEntry::ConflictId(Id([9u8; 32])) },
        ],
    };
    let id = store.write_tree(tree.clone());
    let back = store.get_tree(&id).unwrap();
    assert_eq!(back, tree);
    assert_eq!(back.entries[0].name, "beta");
    assert_eq!(back.entries[1].name, "alpha");
}

#[test]
fn merge_commit_round_trips_every_field() {
    let mut store = Store::new();
    let commit = Commit {
        parents: vec![Id([1u8; 32]), Id([2u8; 32])],
        predecessors: vec![Id([3u8; 32])],
        root_tree: Id([4u8; 32]),
        uses_tree_conflict_format: true,
        change_id: vec![0xde, 0xad, 0xbe, 0xef],
        description: "merge the two lines of work\n".to_string(),
        author: Some(yakd::objects::CommitSignature {
            name: "Ada".to_string(),
            email: "ada@example.net".to_string(),
            timestamp: yakd::objects::CommitTimestamp { millis_since_epoch: 1700000000123, tz_offset: -300 },
        }),
        committer: Some(yakd::objects::CommitSignature {
            name: "Grace".to_string(),
            email: "grace@example.net".to_string(),
            timestamp: yakd::objects::CommitTimestamp { millis_since_epoch: -12345, tz_offset: 60 },
        }),
    };
    let id = store.write_commit(commit.clone()).unwrap();
    let back = store.get_commit(&id).unwrap();
    assert_eq!(back.parents, commit.parents);
    assert_eq!(back.predecessors, commit.predecessors);
    assert_eq!(back.root_tree, commit.root_tree);
    assert_eq!(back.uses_tree_conflict_format, commit.uses_tree_conflict_format);
    assert_eq!(back.change_id, commit.change_id);
    assert_eq!(back.description, commit.description);
    assert_eq!(back.author, commit.author);
    assert_eq!(back.committer, commit.committer);
}

#[test]
fn write_is_idempotent_and_keeps_one_copy() {
    let mut store = Store::new();

    let id1 = store.write_file(File { content: b"hello".to_vec() });
    let id2 = store.write_file(File { content: b"hello".to_vec() });
    assert_eq!(id1, id2);
    assert_eq!(store.num_files(), 1);

    let link = || Symlink { target: "t".to_string() };
    let s1 = store.write_symlink(link());
    let s2 = store.write_symlink(link());
    assert_eq!(s1, s2);
    assert_eq!(store.num_symlinks(), 1);

    let tree = || Tree {
        entries: vec![TreeEntryMapping {
            name: "f".to_string(),
            entry: TreeEntry::File { id: id1, executable: false },
        }],
    };
    let trees_before = store.num_trees();
    let t1 = store.write_tree(tree());
    let t2 = store.write_tree(tree());
    assert_eq!(t1, t2);
    assert_eq!(store.num_trees(), trees_before + 1);

    let commit = || {
        let mut c = bare_commit();
        c.parents = vec![Id::sentinel()];
        c
    };
    let c1 = store.write_commit(commit()).unwrap();
    let c2 = store.write_commit(commit()).unwrap();
    assert_eq!(c1, c2);
    assert_eq!(store.num_commits(), 1);
}

#[test]
fn empty_tree_id_matches_empty_tree_hash() {
    let store = Store::new();
    assert_eq!(store.get_empty_tree_id(), Tree { entries: vec![] }.get_hash());
    // the empty tree is already present
    assert_eq!(store.num_trees(), 1);
    assert_eq!(store.get_tree(&store.get_empty_tree_id()).unwrap(), Tree { entries: vec![] });
}

#[test]
fn missing_ids_are_not_found_not_a_crash() {
    let store = Store::new();
    let bogus = Id([0x55u8; 32]);
    assert!(store.get_file(&bogus).is_none());
    assert!(store.get_symlink(&bogus).is_none());
    assert!(store.get_tree(&bogus).is_none());
    assert!(store.get_commit(&bogus).is_none());

    let svc = JujutsuService::new(test_config());
    assert_eq!(svc.read_file(&bogus), Err(ServiceError::NotFound));
    assert_eq!(svc.read_symlink(&bogus), Err(ServiceError::NotFound));
    assert_eq!(svc.read_tree(&bogus), Err(ServiceError::NotFound));
    assert_eq!(svc.read_commit(&bogus), Err(ServiceError::NotFound));
}

#[test]
fn empty_contents_round_trip() {
    let mut store = Store::new();
    let f = store.write_file(File { content: vec![] });
    assert_eq!(store.get_file(&f).unwrap().content, Vec::<u8>::new());
    let s = store.write_symlink(Symlink { target: String::new() });
    assert_eq!(store.get_symlink(&s).unwrap().target, "");
}

#[test]
fn id_wire_shape_is_32_raw_bytes() {
    let id = Id([0x2au8; 32]);
    let bytes = id.to_vec();
    assert_eq!(bytes, vec![0x2au8; 32]);
    assert_eq!(Id::from_bytes(&bytes), Some(id));
    assert_eq!(Id::from_bytes(&bytes[..31]), None);
    assert_eq!(Id::from_bytes(&[]), None);
}

#[test]
fn store_write_commit_rejects_empty_parents() {
    let mut store = Store::new();
    let commit = bare_commit();
    assert!(store.write_commit(commit).is_err());
    assert_eq!(store.num_commits(), 0);
}
