//! The protocol service: a thin, stateless-per-call translation layer over
//! the object store and the mount actor.
//!
//! Every caller-supplied input that cannot be served — an unknown identifier,
//! a commit with no parents, an exhausted port range — surfaces as a typed,
//! matchable error, never a crash.

use vstd::prelude::*;
use vstd::pervasive::VecAdditionalExecFns;

use crate::hash::{commit_hash, file_hash, symlink_hash, tree_hash};
use crate::ids::Id;
use crate::objects::{
    empty_tree_view, Commit, CommitView, File, MappingView, Symlink, Tree, TreeEntry,
    TreeEntryMapping, TreeEntryView, TreeView,
};
use crate::store::{Store, StoreError};
use crate::vfs_mgr::{
    spec_bind_outcome, spec_ws_index, MountState, VfsError, VfsManager, VfsManagerConfig,
};

verus! {

/// The service's error taxonomy. Each variant maps to one protocol status.
#[derive(Clone, Copy, Debug, PartialEq, Eq, Structural)]
pub enum ServiceError {
    /// A read named an identifier the store does not hold.
    NotFound,
    /// The object is rejected as malformed: a commit with no parents.
    InvalidArgument,
    /// Port selection was exhausted while binding a mount.
    BindFailed,
    /// The operation is reserved surface, not yet served.
    NotSupported,
    /// An encode or decode failure inside the daemon.
    Internal,
}

impl ServiceError {
    /// The wire message for this error.
    pub fn message(&self) -> (r: String)
        ensures
            *self is NotFound ==> r@ == "object not found"@,
            *self is InvalidArgument ==> r@ == "Cannot write a commit with no parents"@,
            *self is BindFailed ==> r@ == "no free port for the mount"@,
            *self is NotSupported ==> r@ == "operation not supported"@,
            *self is Internal ==> r@ == "internal encoding failure"@,
    {
        match self {
            ServiceError::NotFound => "object not found".to_owned(),
            ServiceError::InvalidArgument => "Cannot write a commit with no parents".to_owned(),
            ServiceError::BindFailed => "no free port for the mount".to_owned(),
            ServiceError::NotSupported => "operation not supported".to_owned(),
            ServiceError::Internal => "internal encoding failure".to_owned(),
        }
    }
}

/// One binding of a live checkout: a working-copy path and the object it
/// currently holds.
#[derive(Debug, PartialEq, Eq)]
pub struct CheckoutEntry {
    pub path: String,
    pub id: Id,
}

impl View for CheckoutEntry {
    type V = (Seq<char>, Seq<u8>);

    open spec fn view(&self) -> (Seq<char>, Seq<u8>) {
        (self.path@, self.id@)
    }
}

impl Clone for CheckoutEntry {
    fn clone(&self) -> (r: Self)
        ensures
            r@ == self@,
    {
        CheckoutEntry { path: self.path.clone(), id: self.id }
    }
}

/// The file-to-object bindings of a live checkout, in stored order.
#[derive(Debug, PartialEq, Eq)]
pub struct CheckoutState {
    pub entries: Vec<CheckoutEntry>,
}

impl View for CheckoutState {
    type V = Seq<(Seq<char>, Seq<u8>)>;

    open spec fn view(&self) -> Seq<(Seq<char>, Seq<u8>)> {
        self.entries@.map_values(|e: CheckoutEntry| e@)
    }
}

impl Clone for CheckoutState {
    fn clone(&self) -> (r: Self)
        ensures
            r@ == self@,
    {
        let mut entries: Vec<CheckoutEntry> = Vec::new();
        let mut i: usize = 0;
        while i < self.entries.len()
            invariant
                i <= self.entries.len(),
                entries@.len() == i,
                forall|j: int| 0 <= j < i ==> entries@[j]@ == self.entries@[j]@,
            decreases self.entries.len() - i,
        {
            entries.push(self.entries[i].clone());
            i += 1;
        }
        let r = CheckoutState { entries };
        proof {
            assert(r@ =~= self@);
        }
        r
    }
}

/// The endpoint a caller should mount: where the workspace's filesystem
/// server listens.
#[derive(Debug)]
pub struct MountEndpoint {
    pub host: String,
    pub port: usize,
}

/// One changed path of a live working copy, as the filesystem walk hands it
/// over: the path and the file bytes found there.
#[derive(Debug)]
pub struct SnapshotFile {
    pub path: String,
    pub content: Vec<u8>,
}

impl View for SnapshotFile {
    type V = (Seq<char>, Seq<u8>);

    open spec fn view(&self) -> (Seq<char>, Seq<u8>) {
        (self.path@, self.content@)
    }
}

/// The root tree a snapshot of the given walked files produces: one file
/// entry per walked path, in walk order.
pub open spec fn snapshot_tree_view(fs: Seq<(Seq<char>, Seq<u8>)>) -> TreeView {
    TreeView {
        entries: fs.map_values(
            |f: (Seq<char>, Seq<u8>)|
                MappingView {
                    name: f.0,
                    entry: TreeEntryView::File { id: file_hash(f.1), executable: false },
                },
        ),
    }
}

/// The checkout mapping a snapshot records: each walked path bound to the
/// identifier of the file object written for it.
pub open spec fn snapshot_checkout_view(fs: Seq<(Seq<char>, Seq<u8>)>) -> Seq<
    (Seq<char>, Seq<u8>),
> {
    fs.map_values(|f: (Seq<char>, Seq<u8>)| (f.0, file_hash(f.1)))
}

/// The file map after a snapshot: every walked content inserted under its
/// content hash, in walk order.
pub open spec fn files_after(
    m: Map<Seq<u8>, Seq<u8>>,
    fs: Seq<(Seq<char>, Seq<u8>)>,
) -> Map<Seq<u8>, Seq<u8>>
    decreases fs.len(),
{
    if fs.len() == 0 {
        m
    } else {
        files_after(m, fs.drop_last()).insert(file_hash(fs.last().1), fs.last().1)
    }
}

/// Law: a snapshot never silently drops a modification. Provided no two
/// distinct walked contents collide in the content hash — what the digest's
/// collision resistance grants — every walked file sits in the resulting
/// store, under the identifier its tree entry names, with its exact bytes.
pub proof fn lemma_snapshot_drops_nothing(m: Map<Seq<u8>, Seq<u8>>, fs: Seq<(Seq<char>, Seq<u8>)>)
    requires
        forall|i: int, j: int|
            0 <= i < fs.len() && 0 <= j < fs.len() && (#[trigger] fs[i]).1 != (#[trigger] fs[j]).1
                ==> file_hash(fs[i].1) != file_hash(fs[j].1),
    ensures
        forall|i: int|
            0 <= i < fs.len() ==> {
                &&& files_after(m, fs).contains_key(file_hash((#[trigger] fs[i]).1))
                &&& files_after(m, fs)[file_hash(fs[i].1)] == fs[i].1
            },
    decreases fs.len(),
{
    if fs.len() > 0 {
        let base = fs.drop_last();
        assert forall|i: int, j: int|
            0 <= i < base.len() && 0 <= j < base.len() && (#[trigger] base[i]).1 != (
            #[trigger] base[j]).1 implies file_hash(base[i].1) != file_hash(base[j].1) by {
            assert(fs[i].1 == base[i].1 && fs[j].1 == base[j].1);
        }
        lemma_snapshot_drops_nothing(m, base);
        let h = file_hash(fs.last().1);
        assert forall|i: int|
            0 <= i < fs.len() implies {
                &&& files_after(m, fs).contains_key(file_hash((#[trigger] fs[i]).1))
                &&& files_after(m, fs)[file_hash(fs[i].1)] == fs[i].1
            } by {
            if i < fs.len() - 1 {
                assert(base[i] == fs[i]);
                if file_hash(fs[i].1) == h {
                    assert(fs[i].1 == fs.last().1);
                }
            }
        }
    }
}

/// The index of the named workspace's checkout record, if it has one.
pub open spec fn spec_checkout_index(cs: Seq<(String, CheckoutState)>, w: Seq<char>) -> Option<
    int,
> {
    if exists|i: int| 0 <= i < cs.len() && (#[trigger] cs[i]).0@ == w {
        Some(choose|i: int| 0 <= i < cs.len() && (#[trigger] cs[i]).0@ == w)
    } else {
        None
    }
}

/// The named workspace's checkout mapping, if it has one.
pub open spec fn spec_checkout_of(cs: Seq<(String, CheckoutState)>, w: Seq<char>) -> Option<
    Seq<(Seq<char>, Seq<u8>)>,
> {
    match spec_checkout_index(cs, w) {
        Some(i) => Some(cs[i].1@),
        None => None,
    }
}

/// No two checkout records name the same workspace.
pub open spec fn unique_workspaces(cs: Seq<(String, CheckoutState)>) -> bool {
    forall|i: int, j: int| 0 <= i < j < cs.len() ==> (#[trigger] cs[i]).0@ != (#[trigger] cs[j]).0@
}

proof fn lemma_checkout_at(cs: Seq<(String, CheckoutState)>, w: Seq<char>, i: int)
    requires
        unique_workspaces(cs),
        0 <= i < cs.len(),
        cs[i].0@ == w,
    ensures
        spec_checkout_index(cs, w) == Some(i),
        spec_checkout_of(cs, w) == Some(cs[i].1@),
{
    let j = choose|j: int| 0 <= j < cs.len() && (#[trigger] cs[j]).0@ == w;
    if j != i {
        if j < i {
            assert(cs[j].0@ != cs[i].0@);
        } else {
            assert(cs[i].0@ != cs[j].0@);
        }
    }
}

/// The daemon's protocol service, holding the object store, the mount actor
/// and every workspace's checkout state.
pub struct JujutsuService {
    store: Store,
    vfs: VfsManager,
    checkouts: Vec<(String, CheckoutState)>,
}

impl JujutsuService {
    /// The service's integrity: its store, mount actor and checkout records
    /// are each well formed.
    pub closed spec fn wf(&self) -> bool {
        &&& self.store.wf()
        &&& self.vfs.wf()
        &&& unique_workspaces(self.checkouts@)
    }

    /// The stored files, by content hash.
    pub closed spec fn files(&self) -> Map<Seq<u8>, Seq<u8>> {
        self.store.files()
    }

    /// The stored symlinks, by content hash.
    pub closed spec fn symlinks(&self) -> Map<Seq<u8>, Seq<char>> {
        self.store.symlinks()
    }

    /// The stored trees, by content hash.
    pub closed spec fn trees(&self) -> Map<Seq<u8>, TreeView> {
        self.store.trees()
    }

    /// The stored commits, by content hash.
    pub closed spec fn commits(&self) -> Map<Seq<u8>, CommitView> {
        self.store.commits()
    }

    /// The mount records of the actor, in bind order.
    pub closed spec fn mounts(&self) -> Seq<crate::vfs_mgr::Mount> {
        self.vfs.mounts()
    }

    /// The checkout records, one per workspace.
    pub closed spec fn checkouts(&self) -> Seq<(String, CheckoutState)> {
        self.checkouts@
    }

    /// Build a service over a fresh store and a mount actor with the given
    /// port range.
    pub fn new(config: VfsManagerConfig) -> (r: JujutsuService)
        requires
            config.min_nfs_port <= config.max_nfs_port,
        ensures
            r.wf(),
            r.files() == Map::<Seq<u8>, Seq<u8>>::empty(),
            r.symlinks() == Map::<Seq<u8>, Seq<char>>::empty(),
            r.commits() == Map::<Seq<u8>, CommitView>::empty(),
            r.trees() == Map::<Seq<u8>, TreeView>::empty().insert(
                tree_hash(empty_tree_view()),
                empty_tree_view(),
            ),
            r.mounts().len() == 0,
            r.checkouts().len() == 0,
    {
        JujutsuService { store: Store::new(), vfs: VfsManager::new(config), checkouts: Vec::new() }
    }

    /// The object store behind the service: the filesystem servers resolve
    /// reads against it.
    pub fn store(&self) -> (r: &Store)
        requires
            self.wf(),
        ensures
            r.wf(),
            r.files() == self.files(),
            r.symlinks() == self.symlinks(),
            r.trees() == self.trees(),
            r.commits() == self.commits(),
    {
        &self.store
    }

    /// The mount actor's configured port range.
    pub closed spec fn mount_config(&self) -> VfsManagerConfig {
        self.vfs.config()
    }

    /// Signal intent to present a live working copy at `path`: bind a
    /// filesystem server for the workspace — exactly once: a repeated
    /// initialize returns the endpoint already served and changes nothing —
    /// and report where the caller should mount. The bind takes exactly the
    /// effect `spec_bind_outcome` states for this workspace; in particular
    /// an already-served workspace, or a fresh one while nothing serves yet,
    /// cannot fail.
    pub fn initialize(&mut self, path: String) -> (r: Result<MountEndpoint, ServiceError>)
        requires
            old(self).wf(),
        ensures
            final(self).wf(),
            final(self).files() == old(self).files(),
            final(self).symlinks() == old(self).symlinks(),
            final(self).trees() == old(self).trees(),
            final(self).commits() == old(self).commits(),
            final(self).checkouts() == old(self).checkouts(),
            final(self).mount_config() == old(self).mount_config(),
            match r {
                Ok(ep) => ep.host@ == "127.0.0.1"@ && spec_bind_outcome(
                    old(self).mounts(),
                    old(self).mount_config(),
                    path@,
                    final(self).mounts(),
                    Result::<usize, VfsError>::Ok(ep.port),
                ),
                Err(e) => e == ServiceError::BindFailed && spec_bind_outcome(
                    old(self).mounts(),
                    old(self).mount_config(),
                    path@,
                    final(self).mounts(),
                    Result::<usize, VfsError>::Err(VfsError::BindFailed),
                ),
            },
    {
        match self.vfs.handle_bind(path) {
            Ok(port) => Ok(MountEndpoint { host: "127.0.0.1".to_owned(), port }),
            Err(VfsError::BindFailed) => Err(ServiceError::BindFailed),
        }
    }

    /// Record that the spawned server for `path`'s mount failed to come up:
    /// the workspace's record becomes the terminal failure, freeing its
    /// port. Everything else is untouched.
    pub fn report_mount_failure(&mut self, path: &String)
        requires
            old(self).wf(),
        ensures
            final(self).wf(),
            final(self).files() == old(self).files(),
            final(self).symlinks() == old(self).symlinks(),
            final(self).trees() == old(self).trees(),
            final(self).commits() == old(self).commits(),
            final(self).checkouts() == old(self).checkouts(),
            final(self).mount_config() == old(self).mount_config(),
            match spec_ws_index(old(self).mounts(), path@) {
                Some(i) => {
                    &&& final(self).mounts().len() == old(self).mounts().len()
                    &&& final(self).mounts()[i].workspace@ == old(self).mounts()[i].workspace@
                    &&& final(self).mounts()[i].state == MountState::BindFailed
                    &&& forall|j: int|
                        0 <= j < old(self).mounts().len() && j != i ==> final(self).mounts()[j]
                            == old(self).mounts()[j]
                },
                None => final(self).mounts() == old(self).mounts(),
            },
    {
        self.vfs.mark_bind_failed(path);
    }

    /// The identifier of the empty tree: stable for the life of the store,
    /// always the content hash of a tree with no entries.
    pub fn get_empty_tree_id(&self) -> (r: Id)
        requires
            self.wf(),
        ensures
            r@ == tree_hash(empty_tree_view()),
    {
        self.store.get_empty_tree_id()
    }

    /// Store a file; idempotent, returns its content-derived identifier.
    pub fn write_file(&mut self, file: File) -> (r: Id)
        requires
            old(self).wf(),
        ensures
            final(self).wf(),
            r@ == file_hash(file@),
            final(self).files() == old(self).files().insert(file_hash(file@), file@),
            final(self).symlinks() == old(self).symlinks(),
            final(self).trees() == old(self).trees(),
            final(self).commits() == old(self).commits(),
            final(self).mounts() == old(self).mounts(),
            final(self).checkouts() == old(self).checkouts(),
    {
        self.store.write_file(file)
    }

    /// Fetch a file; an unknown identifier is `NotFound`, never a fault.
    pub fn read_file(&self, id: &Id) -> (r: Result<File, ServiceError>)
        requires
            self.wf(),
        ensures
            match r {
                Ok(f) => self.files().contains_key(id@) && f@ == self.files()[id@],
                Err(e) => e == ServiceError::NotFound && !self.files().contains_key(id@),
            },
    {
        match self.store.get_file(id) {
            Some(f) => Ok(f),
            None => Err(ServiceError::NotFound),
        }
    }

    /// Store a symlink; idempotent, returns its content-derived identifier.
    pub fn write_symlink(&mut self, symlink: Symlink) -> (r: Id)
        requires
            old(self).wf(),
        ensures
            final(self).wf(),
            r@ == symlink_hash(symlink@),
            final(self).symlinks() == old(self).symlinks().insert(
                symlink_hash(symlink@),
                symlink@,
            ),
            final(self).files() == old(self).files(),
            final(self).trees() == old(self).trees(),
            final(self).commits() == old(self).commits(),
            final(self).mounts() == old(self).mounts(),
            final(self).checkouts() == old(self).checkouts(),
    {
        self.store.write_symlink(symlink)
    }

    /// Fetch a symlink; an unknown identifier is `NotFound`, never a fault.
    pub fn read_symlink(&self, id: &Id) -> (r: Result<Symlink, ServiceError>)
        requires
            self.wf(),
        ensures
            match r {
                Ok(s) => self.symlinks().contains_key(id@) && s@ == self.symlinks()[id@],
                Err(e) => e == ServiceError::NotFound && !self.symlinks().contains_key(id@),
            },
    {
        match self.store.get_symlink(id) {
            Some(s) => Ok(s),
            None => Err(ServiceError::NotFound),
        }
    }

    /// Store a tree; idempotent, returns its content-derived identifier.
    pub fn write_tree(&mut self, tree: Tree) -> (r: Id)
        requires
            old(self).wf(),
        ensures
            final(self).wf(),
            r@ == tree_hash(tree@),
            final(self).trees() == old(self).trees().insert(tree_hash(tree@), tree@),
            final(self).files() == old(self).files(),
            final(self).symlinks() == old(self).symlinks(),
            final(self).commits() == old(self).commits(),
            final(self).mounts() == old(self).mounts(),
            final(self).checkouts() == old(self).checkouts(),
    {
        self.store.write_tree(tree)
    }

    /// Fetch a tree; an unknown identifier is `NotFound`, never a fault.
    pub fn read_tree(&self, id: &Id) -> (r: Result<Tree, ServiceError>)
        requires
            self.wf(),
        ensures
            match r {
                Ok(t) => self.trees().contains_key(id@) && t@ == self.trees()[id@],
                Err(e) => e == ServiceError::NotFound && !self.trees().contains_key(id@),
            },
    {
        match self.store.get_tree(id) {
            Some(t) => Ok(t),
            None => Err(ServiceError::NotFound),
        }
    }

    /// Store a commit; idempotent, returns its content-derived identifier.
    ///
    /// A commit with no parents is `InvalidArgument` — a root commit carries
    /// the sentinel identifier as its sole parent instead — and the store is
    /// left unchanged.
    pub fn write_commit(&mut self, commit: Commit) -> (r: Result<Id, ServiceError>)
        requires
            old(self).wf(),
        ensures
            final(self).wf(),
            commit.parents@.len() == 0 <==> r == Result::<Id, ServiceError>::Err(
                ServiceError::InvalidArgument,
            ),
            commit.parents@.len() > 0 ==> r is Ok,
            match r {
                Ok(id) => id@ == commit_hash(commit@) && final(self).commits() == old(
                    self,
                ).commits().insert(commit_hash(commit@), commit@),
                Err(_) => final(self).commits() == old(self).commits(),
            },
            final(self).files() == old(self).files(),
            final(self).symlinks() == old(self).symlinks(),
            final(self).trees() == old(self).trees(),
            final(self).mounts() == old(self).mounts(),
            final(self).checkouts() == old(self).checkouts(),
    {
        if commit.parents.len() == 0 {
            return Err(ServiceError::InvalidArgument);
        }
        let written = self.store.write_commit(commit);
        match written {
            Ok(id) => Ok(id),
            Err(e) => {
                proof {
                    match e {
                        StoreError::InvalidArgument => {
                            assert(written == Result::<Id, StoreError>::Err(
                                StoreError::InvalidArgument,
                            ));
                        },
                    }
                }
                Err(ServiceError::InvalidArgument)
            },
        }
    }

    /// Fetch a commit; an unknown identifier is `NotFound`, never a fault.
    pub fn read_commit(&self, id: &Id) -> (r: Result<Commit, ServiceError>)
        requires
            self.wf(),
        ensures
            match r {
                Ok(c) => self.commits().contains_key(id@) && c@ == self.commits()[id@],
                Err(e) => e == ServiceError::NotFound && !self.commits().contains_key(id@),
            },
    {
        match self.store.get_commit(id) {
            Some(c) => Ok(c),
            None => Err(ServiceError::NotFound),
        }
    }

    /// The current file-to-object bindings of the named workspace's live
    /// checkout; a workspace never set is `NotFound`.
    pub fn get_checkout_state(&self, workspace: &String) -> (r: Result<
        CheckoutState,
        ServiceError,
    >)
        requires
            self.wf(),
        ensures
            match r {
                Ok(cs) => spec_checkout_of(self.checkouts(), workspace@) == Some(cs@),
                Err(e) => e == ServiceError::NotFound && spec_checkout_of(
                    self.checkouts(),
                    workspace@,
                ) is None,
            },
    {
        let mut i: usize = 0;
        while i < self.checkouts.len()
            invariant
                self.wf(),
                i <= self.checkouts@.len(),
                forall|j: int| 0 <= j < i ==> (#[trigger] self.checkouts@[j]).0@ != workspace@,
            decreases self.checkouts@.len() - i,
        {
            if self.checkouts[i].0 == *workspace {
                proof {
                    lemma_checkout_at(self.checkouts@, workspace@, i as int);
                }
                return Ok(self.checkouts[i].1.clone());
            }
            i += 1;
        }
        Err(ServiceError::NotFound)
    }

    /// Atomically replace the named workspace's checkout mapping. Every
    /// other workspace's mapping is untouched.
    pub fn set_checkout_state(&mut self, workspace: String, state: CheckoutState)
        requires
            old(self).wf(),
        ensures
            final(self).wf(),
            spec_checkout_of(final(self).checkouts(), workspace@) == Some(state@),
            forall|w: Seq<char>|
                w != workspace@ ==> #[trigger] spec_checkout_of(final(self).checkouts(), w)
                    == spec_checkout_of(old(self).checkouts(), w),
            final(self).files() == old(self).files(),
            final(self).symlinks() == old(self).symlinks(),
            final(self).trees() == old(self).trees(),
            final(self).commits() == old(self).commits(),
            final(self).mounts() == old(self).mounts(),
    {
        let ghost svw = state@;
        let mut i: usize = 0;
        let n = self.checkouts.len();
        while i < n
            invariant
                self == old(self),
                old(self).wf(),
                i <= self.checkouts@.len(),
                n == self.checkouts@.len(),
                forall|j: int| 0 <= j < i ==> (#[trigger] self.checkouts@[j]).0@ != workspace@,
            decreases n - i,
        {
            if self.checkouts[i].0 == workspace {
                self.checkouts.set(i, (workspace, state));
                proof {
                    let cs = self.checkouts@;
                    let pre = old(self).checkouts@;
                    assert forall|x: int, y: int| 0 <= x < y < cs.len() implies (
                    #[trigger] cs[x]).0@ != (#[trigger] cs[y]).0@ by {
                        assert(pre[x].0@ != pre[y].0@);
                    }
                    lemma_checkout_at(cs, pre[i as int].0@, i as int);
                    assert forall|w: Seq<char>| w != pre[i as int].0@ implies
                        #[trigger] spec_checkout_of(cs, w) == spec_checkout_of(pre, w) by {
                        lemma_checkout_other(pre, cs, i as int, w);
                    }
                }
                return ;
            }
            i += 1;
        }
        self.checkouts.push((workspace, state));
        proof {
            let cs = self.checkouts@;
            let pre = old(self).checkouts@;
            let k = pre.len() as int;
            assert forall|x: int, y: int| 0 <= x < y < cs.len() implies (#[trigger] cs[x]).0@ != (
            #[trigger] cs[y]).0@ by {
                assert(cs[x] == pre[x]);
                if y < k {
                    assert(pre[x].0@ != pre[y].0@);
                } else {
                    assert(pre[x].0@ != workspace@);
                }
            }
            lemma_checkout_at(cs, workspace@, k);
            assert forall|w: Seq<char>| w != workspace@ implies #[trigger] spec_checkout_of(cs, w)
                == spec_checkout_of(pre, w) by {
                lemma_checkout_push_other(pre, cs, w);
            }
        }
    }

    /// Materialize a walk of the live mounted filesystem into the object
    /// graph: write a file object for every walked path, write the root tree
    /// binding each path to its file, record the new checkout mapping for
    /// the workspace, and return the new root tree identifier.
    ///
    /// No modification is dropped: every walked file is written, and the
    /// returned tree names each walked path in walk order (see
    /// `lemma_snapshot_drops_nothing`).
    pub fn snapshot(&mut self, workspace: String, files: Vec<SnapshotFile>) -> (r: Id)
        requires
            old(self).wf(),
        ensures
            final(self).wf(),
            ({
                let fs = files@.map_values(|f: SnapshotFile| f@);
                &&& r@ == tree_hash(snapshot_tree_view(fs))
                &&& final(self).files() == files_after(old(self).files(), fs)
                &&& final(self).trees() == old(self).trees().insert(
                    tree_hash(snapshot_tree_view(fs)),
                    snapshot_tree_view(fs),
                )
                &&& final(self).symlinks() == old(self).symlinks()
                &&& final(self).commits() == old(self).commits()
                &&& final(self).mounts() == old(self).mounts()
                &&& spec_checkout_of(final(self).checkouts(), workspace@) == Some(
                    snapshot_checkout_view(fs),
                )
                &&& forall|w: Seq<char>|
                    w != workspace@ ==> #[trigger] spec_checkout_of(final(self).checkouts(), w)
                        == spec_checkout_of(old(self).checkouts(), w)
            }),
    {
        let ghost fs = files@.map_values(|f: SnapshotFile| f@);
        let mut entries: Vec<TreeEntryMapping> = Vec::new();
        let mut checkout: Vec<CheckoutEntry> = Vec::new();
        let mut i: usize = 0;
        while i < files.len()
            invariant
                old(self).wf(),
                self.wf(),
                i <= files@.len(),
                fs == files@.map_values(|f: SnapshotFile| f@),
                fs.len() == files@.len(),
                self.files() == files_after(old(self).files(), fs.take(i as int)),
                self.symlinks() == old(self).symlinks(),
                self.trees() == old(self).trees(),
                self.commits() == old(self).commits(),
                self.mounts() == old(self).mounts(),
                self.checkouts() == old(self).checkouts(),
                entries@.len() == i,
                forall|j: int|
                    0 <= j < i ==> (#[trigger] entries@[j])@ == (MappingView {
                        name: fs[j].0,
                        entry: TreeEntryView::File { id: file_hash(fs[j].1), executable: false },
                    }),
                checkout@.len() == i,
                forall|j: int|
                    0 <= j < i ==> (#[trigger] checkout@[j])@ == (fs[j].0, file_hash(fs[j].1)),
            decreases files@.len() - i,
        {
            let content = files[i].content.clone();
            let id = self.store.write_file(File { content });
            entries.push(
                TreeEntryMapping {
                    name: files[i].path.clone(),
                    entry: TreeEntry::File { id, executable: false },
                },
            );
            checkout.push(CheckoutEntry { path: files[i].path.clone(), id });
            proof {
                assert(fs.take(i + 1 as int).drop_last() =~= fs.take(i as int));
                assert(fs.take(i + 1 as int).last() == fs[i as int]);
            }
            i += 1;
        }
        proof {
            assert(fs.take(fs.len() as int) =~= fs);
        }
        let tree = Tree { entries };
        proof {
            assert(tree@.entries =~= snapshot_tree_view(fs).entries);
            assert(tree@ =~= snapshot_tree_view(fs));
        }
        let root = self.store.write_tree(tree);
        let state = CheckoutState { entries: checkout };
        proof {
            assert(state@ =~= snapshot_checkout_view(fs));
        }
        self.set_checkout_state(workspace, state);
        root
    }

    /// Tree-level introspection: reserved surface, not yet served.
    pub fn get_tree_state(&self) -> (r: Result<Id, ServiceError>)
        ensures
            r == Result::<Id, ServiceError>::Err(ServiceError::NotSupported),
    {
        Err(ServiceError::NotSupported)
    }

    /// Concurrency-mode negotiation: reserved surface, not yet served.
    pub fn concurrency(&self) -> (r: Result<Id, ServiceError>)
        ensures
            r == Result::<Id, ServiceError>::Err(ServiceError::NotSupported),
    {
        Err(ServiceError::NotSupported)
    }
}

proof fn lemma_checkout_other(
    pre: Seq<(String, CheckoutState)>,
    cs: Seq<(String, CheckoutState)>,
    i: int,
    w: Seq<char>,
)
    requires
        unique_workspaces(pre),
        unique_workspaces(cs),
        0 <= i < pre.len(),
        cs.len() == pre.len(),
        forall|j: int| 0 <= j < pre.len() && j != i ==> cs[j] == pre[j],
        w != pre[i].0@,
        cs[i].0@ == pre[i].0@,
    ensures
        spec_checkout_of(cs, w) == spec_checkout_of(pre, w),
{
    if exists|j: int| 0 <= j < pre.len() && (#[trigger] pre[j]).0@ == w {
        let j = choose|j: int| 0 <= j < pre.len() && (#[trigger] pre[j]).0@ == w;
        assert(j != i);
        assert(cs[j].0@ == w);
        lemma_checkout_at(pre, w, j);
        lemma_checkout_at(cs, w, j);
    } else {
        assert forall|j: int| 0 <= j < cs.len() implies (#[trigger] cs[j]).0@ != w by {
            assert(pre[j].0@ != w);
            if j != i {
                assert(cs[j] == pre[j]);
            }
        }
    }
}

proof fn lemma_checkout_push_other(
    pre: Seq<(String, CheckoutState)>,
    cs: Seq<(String, CheckoutState)>,
    w: Seq<char>,
)
    requires
        unique_workspaces(pre),
        unique_workspaces(cs),
        cs.len() == pre.len() + 1,
        forall|j: int| 0 <= j < pre.len() ==> cs[j] == pre[j],
        w != cs[pre.len() as int].0@,
    ensures
        spec_checkout_of(cs, w) == spec_checkout_of(pre, w),
{
    let k = pre.len() as int;
    if exists|j: int| 0 <= j < pre.len() && (#[trigger] pre[j]).0@ == w {
        let j = choose|j: int| 0 <= j < pre.len() && (#[trigger] pre[j]).0@ == w;
        assert(cs[j].0@ == w);
        lemma_checkout_at(pre, w, j);
        lemma_checkout_at(cs, w, j);
    } else {
        assert forall|j: int| 0 <= j < cs.len() implies (#[trigger] cs[j]).0@ != w by {
            if j < k {
                assert(pre[j].0@ != w);
                assert(cs[j] == pre[j]);
            }
        }
    }
}

} // verus!
