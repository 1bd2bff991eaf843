use yakd::objects::File;
use yakd::service::{CheckoutEntry, CheckoutState};
use yakd::store::Store;
use yakd::vfs::{VfsCapabilities, VfsStatus, VirtualFileSystem};
use yakd::vfs_mgr::{VfsCommand, VfsError, VfsManager, VfsManagerConfig};

#[test]
fn two_binds_reach_served_on_distinct_ports() {
    let mut mgr = VfsManager::new(VfsManagerConfig { min_nfs_port: 21000, max_nfs_port: 21999 });
    let p1 = mgr.handle_bind("ws1".to_string()).unwrap();
    let p2 = mgr.handle_bind("ws2".to_string()).unwrap();
    assert_ne!(p1, p2);
    assert!((21000..=21999).contains(&p1));
    assert!((21000..=21999).contains(&p2));
    // neither corrupts the other's allocation: both stay served
    assert_eq!(mgr.served_port(&"ws1".to_string()), Some(p1));
    assert_eq!(mgr.served_port(&"ws2".to_string()), Some(p2));
}

#[test]
fn rebinding_a_workspace_returns_the_same_port() {
    let mut mgr = VfsManager::new(VfsManagerConfig { min_nfs_port: 22000, max_nfs_port: 22999 });
    let p1 = mgr.handle_bind("ws".to_string()).unwrap();
    let p2 = mgr.handle_bind("ws".to_string()).unwrap();
    assert_eq!(p1, p2);
}

#[test]
fn port_exhaustion_surfaces_bind_failed() {
    // a single-port range: the second workspace finds every draw taken
    let mut mgr = VfsManager::new(VfsManagerConfig { min_nfs_port: 23000, max_nfs_port: 23000 });
    let p1 = mgr.handle_bind("ws1".to_string()).unwrap();
    assert_eq!(p1, 23000);
    assert_eq!(mgr.handle_bind("ws2".to_string()), Err(VfsError::BindFailed));
    // the failure is terminal for that workspace
    assert_eq!(mgr.handle_bind("ws2".to_string()), Err(VfsError::BindFailed));
    assert_eq!(mgr.served_port(&"ws2".to_string()), None);
    // the first allocation is untouched
    assert_eq!(mgr.served_port(&"ws1".to_string()), Some(23000));
}

fn small_mount() -> (Store, VirtualFileSystem) {
    let mut store = Store::new();
    let a = store.write_file(File { content: b"hello".to_vec() });
    let b = store.write_file(File { content: b"world!".to_vec() });
    let cs = CheckoutState {
        entries: vec![
            CheckoutEntry { path: "a.txt".to_string(), id: a },
            CheckoutEntry { path: "b.txt".to_string(), id: b },
        ],
    };
    (store, VirtualFileSystem::from_checkout(&cs))
}

#[test]
fn vfs_root_and_capabilities() {
    let vfs = VirtualFileSystem::default();
    assert_eq!(vfs.root_dir(), 1);
    assert_eq!(vfs.capabilities(), VfsCapabilities::ReadWrite);
}

#[test]
fn vfs_lookup_resolves_names_under_the_root() {
    let (_store, vfs) = small_mount();
    assert_eq!(vfs.lookup(1, &"a.txt".to_string()), Ok(2));
    assert_eq!(vfs.lookup(1, &"b.txt".to_string()), Ok(3));
    assert_eq!(vfs.lookup(1, &"c.txt".to_string()), Err(VfsStatus::NotFound));
    assert_eq!(vfs.lookup(9, &"a.txt".to_string()), Err(VfsStatus::NotFound));
}

#[test]
fn vfs_getattr_reports_sizes() {
    let (store, vfs) = small_mount();
    let root = vfs.getattr(&store, 1).unwrap();
    assert!(root.is_dir);
    let a = vfs.getattr(&store, 2).unwrap();
    assert!(!a.is_dir);
    assert_eq!(a.size, 5);
    let b = vfs.getattr(&store, 3).unwrap();
    assert_eq!(b.size, 6);
    assert_eq!(vfs.getattr(&store, 40), Err(VfsStatus::NotFound));
}

#[test]
fn vfs_read_clips_to_the_file() {
    let (store, vfs) = small_mount();
    // whole file
    let (data, eof) = vfs.read(&store, 2, 0, 100).unwrap();
    assert_eq!(data, b"hello".to_vec());
    assert!(eof);
    // a middle slice
    let (data, eof) = vfs.read(&store, 2, 1, 3).unwrap();
    assert_eq!(data, b"ell".to_vec());
    assert!(!eof);
    // up to the exact end
    let (data, eof) = vfs.read(&store, 2, 2, 3).unwrap();
    assert_eq!(data, b"llo".to_vec());
    assert!(eof);
    // past the end
    let (data, eof) = vfs.read(&store, 2, 50, 3).unwrap();
    assert_eq!(data, Vec::<u8>::new());
    assert!(eof);
    // unknown handle
    assert_eq!(vfs.read(&store, 99, 0, 1), Err(VfsStatus::NotFound));
}

#[test]
fn vfs_readdir_lists_in_order() {
    let (_store, vfs) = small_mount();
    let (entries, end) = vfs.readdir(1, 0, 10).unwrap();
    assert!(end);
    assert_eq!(entries.len(), 2);
    assert_eq!(entries[0].name, "a.txt");
    assert_eq!(entries[0].fileid, 2);
    assert_eq!(entries[1].name, "b.txt");
    assert_eq!(entries[1].fileid, 3);

    // paging: one entry at a time
    let (page, end) = vfs.readdir(1, 0, 1).unwrap();
    assert!(!end);
    assert_eq!(page.len(), 1);
    assert_eq!(page[0].name, "a.txt");
    let (page, end) = vfs.readdir(1, page[0].fileid, 1).unwrap();
    assert!(end);
    assert_eq!(page[0].name, "b.txt");

    assert_eq!(vfs.readdir(7, 0, 10), Err(VfsStatus::NotFound));
}

#[test]
fn vfs_write_buffers_into_the_journal() {
    let (_store, mut vfs) = small_mount();
    let n = vfs.write(2, 3, b"xyz".to_vec()).unwrap();
    assert_eq!(n, 3);
    let n = vfs.write(3, 0, b"pq".to_vec()).unwrap();
    assert_eq!(n, 2);
    assert_eq!(vfs.write(77, 0, b"zz".to_vec()), Err(VfsStatus::NotFound));
    // an extent that cannot fit any file is invalid, not a fault
    assert_eq!(vfs.write(2, u64::MAX, b"z".to_vec()), Err(VfsStatus::Invalid));
}

#[test]
fn bind_commands_take_the_bind_effect() {
    let mut mgr = VfsManager::new(VfsManagerConfig { min_nfs_port: 24000, max_nfs_port: 24999 });
    let p = mgr.handle_command(VfsCommand::Bind { workspace: "ws".to_string() }).unwrap();
    assert!((24000..=24999).contains(&p));
    assert_eq!(mgr.served_port(&"ws".to_string()), Some(p));
}

#[test]
fn a_reported_mount_failure_is_terminal_and_frees_the_port() {
    let mut mgr = VfsManager::new(VfsManagerConfig { min_nfs_port: 25000, max_nfs_port: 25000 });
    let p = mgr.handle_bind("ws1".to_string()).unwrap();
    assert_eq!(p, 25000);
    mgr.mark_bind_failed(&"ws1".to_string());
    assert_eq!(mgr.served_port(&"ws1".to_string()), None);
    // the workspace stays failed, but its port is free for others
    assert_eq!(mgr.handle_bind("ws1".to_string()), Err(VfsError::BindFailed));
    assert_eq!(mgr.handle_bind("ws2".to_string()), Ok(25000));
    // reporting a workspace with no record changes nothing
    mgr.mark_bind_failed(&"ws9".to_string());
    assert_eq!(mgr.served_port(&"ws2".to_string()), Some(25000));
}

#[test]
fn vfs_unbacked_operations_answer_not_supported() {
    let (_store, vfs) = small_mount();
    let name = "new.txt".to_string();
    assert_eq!(vfs.create(1, &name), Err(VfsStatus::NotSupported));
    assert_eq!(vfs.create_exclusive(1, &name), Err(VfsStatus::NotSupported));
    assert_eq!(vfs.setattr(2), Err(VfsStatus::NotSupported));
    assert_eq!(vfs.remove(1, &name), Err(VfsStatus::NotSupported));
    assert_eq!(vfs.rename(1, 1), Err(VfsStatus::NotSupported));
    assert_eq!(vfs.mkdir(1, &name), Err(VfsStatus::NotSupported));
    assert_eq!(vfs.symlink(1, &name, &"t".to_string()), Err(VfsStatus::NotSupported));
    assert_eq!(vfs.readlink(2), Err(VfsStatus::NotSupported));
}
