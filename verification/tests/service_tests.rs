use yakd::objects::{File, Tree, TreeEntry, TreeEntryMapping};
use yakd::service::{CheckoutEntry, CheckoutState, JujutsuService, ServiceError, SnapshotFile};
use yakd::vfs_mgr::VfsManagerConfig;

fn test_config() -> VfsManagerConfig {
    VfsManagerConfig { min_nfs_port: 12000, max_nfs_port: 12999 }
}

#[test]
fn write_file_hello_scenario() {
    let mut svc = JujutsuService::new(test_config());
    let a1 = svc.write_file(File { content: b"hello".to_vec() });
    let a2 = svc.write_file(File { content: b"hello".to_vec() });
    assert_eq!(a1, a2);
    let back = svc.read_file(&a1).unwrap();
    assert_eq!(back.content, b"hello".to_vec());
}

#[test]
fn write_tree_single_entry_scenario() {
    let mut svc = JujutsuService::new(test_config());
    let a = svc.write_file(File { content: b"hello".to_vec() });
    let tree = Tree {
        entries: vec![TreeEntryMapping {
            name: "a.txt".to_string(),
            entry: TreeEntry::File { id: a, executable: false },
        }],
    };
    let t = svc.write_tree(tree);
    let back = svc.read_tree(&t).unwrap();
    assert_eq!(back.entries.len(), 1);
    assert_eq!(back.entries[0].name, "a.txt");
    assert!(matches!(back.entries[0].entry, TreeEntry::File { id, executable: false } if id == a));
}

#[test]
fn get_empty_tree_id_is_stable() {
    let svc = JujutsuService::new(test_config());
    let e1 = svc.get_empty_tree_id();
    let e2 = svc.get_empty_tree_id();
    assert_eq!(e1, e2);
    assert_eq!(e1, Tree { entries: vec![] }.get_hash());
}

#[test]
fn initialize_reports_the_mount_endpoint() {
    let mut svc = JujutsuService::new(test_config());
    let ep = svc.initialize("/work/repo".to_string()).unwrap();
    assert_eq!(ep.host, "127.0.0.1");
    assert!((12000..=12999).contains(&ep.port));

    // initializing the same workspace again reuses the endpoint
    let again = svc.initialize("/work/repo".to_string()).unwrap();
    assert_eq!(again.port, ep.port);
}

#[test]
fn checkout_state_is_set_and_read_back() {
    let mut svc = JujutsuService::new(test_config());
    let ws = "ws1".to_string();
    assert_eq!(svc.get_checkout_state(&ws), Err(ServiceError::NotFound));

    let a = svc.write_file(File { content: b"one".to_vec() });
    let state = CheckoutState { entries: vec![CheckoutEntry { path: "one.txt".to_string(), id: a }] };
    svc.set_checkout_state(ws.clone(), state);
    let got = svc.get_checkout_state(&ws).unwrap();
    assert_eq!(got.entries.len(), 1);
    assert_eq!(got.entries[0].path, "one.txt");
    assert_eq!(got.entries[0].id, a);

    // replacing is atomic: the new mapping fully replaces the old
    let b = svc.write_file(File { content: b"two".to_vec() });
    let state2 = CheckoutState { entries: vec![CheckoutEntry { path: "two.txt".to_string(), id: b }] };
    svc.set_checkout_state(ws.clone(), state2);
    let got = svc.get_checkout_state(&ws).unwrap();
    assert_eq!(got.entries.len(), 1);
    assert_eq!(got.entries[0].path, "two.txt");

    // other workspaces are untouched
    assert_eq!(svc.get_checkout_state(&"ws2".to_string()), Err(ServiceError::NotFound));
}

#[test]
fn snapshot_materializes_every_walked_file() {
    let mut svc = JujutsuService::new(test_config());
    let root = svc.snapshot(
        "ws".to_string(),
        vec![
            SnapshotFile { path: "a.txt".to_string(), content: b"hello".to_vec() },
            SnapshotFile { path: "b.txt".to_string(), content: b"world".to_vec() },
        ],
    );
    let tree = svc.read_tree(&root).unwrap();
    assert_eq!(tree.entries.len(), 2);
    assert_eq!(tree.entries[0].name, "a.txt");
    assert_eq!(tree.entries[1].name, "b.txt");
    // every walked file is present with its exact bytes
    for (entry, expected) in tree.entries.iter().zip([&b"hello"[..], &b"world"[..]]) {
        match entry.entry {
            TreeEntry::File { id, executable } => {
                assert!(!executable);
                assert_eq!(svc.read_file(&id).unwrap().content, expected.to_vec());
            }
            _ => panic!("snapshot wrote a non-file entry"),
        }
    }
    // and the checkout mapping was recorded
    let cs = svc.get_checkout_state(&"ws".to_string()).unwrap();
    assert_eq!(cs.entries.len(), 2);
    assert_eq!(cs.entries[0].path, "a.txt");
    assert_eq!(cs.entries[1].path, "b.txt");
}

#[test]
fn snapshot_of_nothing_is_the_empty_tree() {
    let mut svc = JujutsuService::new(test_config());
    let root = svc.snapshot("ws".to_string(), vec![]);
    assert_eq!(root, svc.get_empty_tree_id());
    assert_eq!(svc.get_checkout_state(&"ws".to_string()).unwrap().entries.len(), 0);
}

#[test]
fn a_failed_mount_report_reaches_the_workspace_record() {
    let mut svc = JujutsuService::new(test_config());
    let ep = svc.initialize("/w1".to_string()).unwrap();
    let _ = ep;
    svc.report_mount_failure(&"/w1".to_string());
    // the failure is terminal for that workspace
    assert!(svc.initialize("/w1".to_string()).is_err());
    // other workspaces still bind
    assert!(svc.initialize("/w2".to_string()).is_ok());
}

#[test]
fn reserved_surface_answers_not_supported() {
    let svc = JujutsuService::new(test_config());
    assert_eq!(svc.get_tree_state(), Err(ServiceError::NotSupported));
    assert_eq!(svc.concurrency(), Err(ServiceError::NotSupported));
}

#[test]
fn error_messages_are_fixed() {
    assert_eq!(ServiceError::NotFound.message(), "object not found");
    assert_eq!(ServiceError::InvalidArgument.message(), "Cannot write a commit with no parents");
    assert_eq!(ServiceError::BindFailed.message(), "no free port for the mount");
    assert_eq!(ServiceError::NotSupported.message(), "operation not supported");
    assert_eq!(ServiceError::Internal.message(), "internal encoding failure");
}
