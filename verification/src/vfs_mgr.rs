//! The mount actor: owner of the bind lifecycle of per-workspace virtual
//! filesystem servers.
//!
//! A single consumer processes bind commands strictly in arrival order, so
//! two concurrent bind attempts never race over port selection. On bind the
//! actor draws a port pseudo-randomly from the configured inclusive range and
//! retries on collision, up to a bounded number of attempts; only exhaustion
//! surfaces `BindFailed`. Each workspace binds at most once: a repeated bind
//! returns the endpoint already served.
//!
//! The loop that receives commands from a channel and spawns the per-mount
//! server task lives outside the library; the decisions — port selection,
//! collision retry, per-workspace tracking — are all here. The shell reports
//! a spawned server that failed to come up through `mark_bind_failed`, so
//! the records track what actually serves.

use vstd::prelude::*;
use vstd::pervasive::VecAdditionalExecFns;

use rand::Rng;

verus! {

/// Most port draws attempted for one bind before giving up.
pub const MAX_BIND_ATTEMPTS: usize = 32;

/// Inclusive port range an actor may bind filesystem servers within.
#[derive(Clone, Copy, Debug)]
pub struct VfsManagerConfig {
    pub min_nfs_port: usize,
    pub max_nfs_port: usize,
}

/// Lifecycle state of one workspace's mount. A workspace with no record is
/// unbound; binding is transient within one command.
#[derive(Clone, Copy, Debug)]
pub enum MountState {
    /// A filesystem server is serving this workspace on the given port.
    Served(usize),
    /// Port selection was exhausted, or the spawned server failed to come
    /// up; the failure is terminal for the workspace.
    BindFailed,
}

/// One workspace's mount record.
#[derive(Debug)]
pub struct Mount {
    pub workspace: String,
    pub state: MountState,
}

/// A command for the actor, as callers queue them.
#[derive(Debug)]
pub enum VfsCommand {
    Bind { workspace: String },
}

/// Errors of the mount actor.
#[derive(Clone, Copy, Debug, PartialEq, Eq, Structural)]
pub enum VfsError {
    /// Every attempted port collided with a live mount.
    BindFailed,
}

/// Some mount serves on the given port.
pub open spec fn spec_port_in_use(ms: Seq<Mount>, port: usize) -> bool {
    exists|i: int| 0 <= i < ms.len() && (#[trigger] ms[i]).state == MountState::Served(port)
}

/// No mount serves at all: the state in which a fresh bind cannot fail.
pub open spec fn spec_no_served_mount(ms: Seq<Mount>) -> bool {
    forall|i: int| 0 <= i < ms.len() ==> !((#[trigger] ms[i]).state is Served)
}

/// The index of the named workspace's mount record, if it has one.
pub open spec fn spec_ws_index(ms: Seq<Mount>, w: Seq<char>) -> Option<int> {
    if exists|i: int| 0 <= i < ms.len() && (#[trigger] ms[i]).workspace@ == w {
        Some(choose|i: int| 0 <= i < ms.len() && (#[trigger] ms[i]).workspace@ == w)
    } else {
        None
    }
}

/// What handling `Bind { workspace }` does: the relation between the mount
/// records before and after, and the result.
///
/// A workspace already served keeps its endpoint: the repeated bind returns
/// the recorded port, within the configured range, and changes nothing. A
/// workspace whose earlier bind failed stays failed. A new workspace gets
/// exactly one appended record: on success a port within the range that no
/// live mount used, recorded as served; on failure a terminal record. When
/// nothing serves yet, no draw can collide, so a fresh bind is owed success.
pub open spec fn spec_bind_outcome(
    pre: Seq<Mount>,
    cfg: VfsManagerConfig,
    w: Seq<char>,
    post: Seq<Mount>,
    r: Result<usize, VfsError>,
) -> bool {
    match spec_ws_index(pre, w) {
        Some(i) => post == pre && match pre[i].state {
            MountState::Served(p) => r == Result::<usize, VfsError>::Ok(p) && cfg.min_nfs_port <= p
                <= cfg.max_nfs_port,
            MountState::BindFailed => r == Result::<usize, VfsError>::Err(VfsError::BindFailed),
        },
        None => {
            &&& post.len() == pre.len() + 1
            &&& post.take(pre.len() as int) == pre
            &&& post.last().workspace@ == w
            &&& (spec_no_served_mount(pre) ==> r is Ok)
            &&& match r {
                Ok(port) => {
                    &&& cfg.min_nfs_port <= port <= cfg.max_nfs_port
                    &&& !spec_port_in_use(pre, port)
                    &&& post.last().state == MountState::Served(port)
                },
                Err(e) => e == VfsError::BindFailed && post.last().state
                    == MountState::BindFailed,
            }
        },
    }
}

/// Relies on rand::Rng::gen_range over an inclusive range: a value within
/// the bounds, drawn from the thread's generator. Panics only on an empty
/// range, which the precondition excludes. Nothing is assumed about which
/// value comes back.
#[verifier::external_body]
fn draw_port(min: usize, max: usize) -> (r: usize)
    requires
        min <= max,
    ensures
        min <= r <= max,
{
    rand::thread_rng().gen_range(min..=max)
}

/// The mount actor's state: its configuration and every workspace's mount
/// record, in bind order.
pub struct VfsManager {
    config: VfsManagerConfig,
    mounts: Vec<Mount>,
}

impl VfsManager {
    /// The actor's integrity: a non-empty port range, one record per
    /// workspace, every served port within the range, and no two live
    /// mounts on the same port.
    pub closed spec fn wf(&self) -> bool {
        &&& self.config.min_nfs_port <= self.config.max_nfs_port
        &&& forall|i: int, j: int|
            0 <= i < j < self.mounts@.len() ==> (#[trigger] self.mounts@[i]).workspace@ != (
            #[trigger] self.mounts@[j]).workspace@
        &&& forall|i: int|
            0 <= i < self.mounts@.len() ==> match (#[trigger] self.mounts@[i]).state {
                MountState::Served(p) => self.config.min_nfs_port <= p
                    <= self.config.max_nfs_port,
                MountState::BindFailed => true,
            }
        &&& forall|i: int, j: int|
            0 <= i < j < self.mounts@.len() ==> match ((#[trigger] self.mounts@[i]).state, (
            #[trigger] self.mounts@[j]).state) {
                (MountState::Served(p), MountState::Served(q)) => p != q,
                _ => true,
            }
    }

    /// The mount records, in bind order.
    pub closed spec fn mounts(&self) -> Seq<Mount> {
        self.mounts@
    }

    /// The configured port range.
    pub closed spec fn config(&self) -> VfsManagerConfig {
        self.config
    }

    /// Build an actor over the given inclusive port range, with no mounts.
    pub fn new(config: VfsManagerConfig) -> (r: VfsManager)
        requires
            config.min_nfs_port <= config.max_nfs_port,
        ensures
            r.wf(),
            r.config() == config,
            r.mounts().len() == 0,
    {
        VfsManager { config, mounts: Vec::new() }
    }

    /// Whether some live mount already serves on `port`.
    fn port_in_use(&self, port: usize) -> (r: bool)
        ensures
            r == spec_port_in_use(self.mounts@, port),
    {
        let mut i: usize = 0;
        while i < self.mounts.len()
            invariant
                i <= self.mounts@.len(),
                forall|j: int|
                    0 <= j < i ==> (#[trigger] self.mounts@[j]).state != MountState::Served(port),
            decreases self.mounts@.len() - i,
        {
            match self.mounts[i].state {
                MountState::Served(p) => {
                    if p == port {
                        assert(self.mounts@[i as int].state == MountState::Served(port));
                        return true;
                    }
                },
                MountState::BindFailed => {},
            }
            i += 1;
        }
        false
    }

    /// Index of the named workspace's record, if it has one. With one record
    /// per workspace, a found index is the one `spec_ws_index` names.
    fn find_workspace(&self, workspace: &String) -> (r: Option<usize>)
        requires
            self.wf(),
        ensures
            match r {
                Some(i) => spec_ws_index(self.mounts@, workspace@) == Some(i as int) && i
                    < self.mounts@.len() && self.mounts@[i as int].workspace@ == workspace@,
                None => spec_ws_index(self.mounts@, workspace@) is None,
            },
    {
        let mut i: usize = 0;
        while i < self.mounts.len()
            invariant
                self.wf(),
                i <= self.mounts@.len(),
                forall|j: int| 0 <= j < i ==> (#[trigger] self.mounts@[j]).workspace@ != workspace@,
            decreases self.mounts@.len() - i,
        {
            if self.mounts[i].workspace == *workspace {
                proof {
                    let w = spec_ws_index(self.mounts@, workspace@);
                    assert(w is Some);
                    let j = w.unwrap();
                    assert(self.mounts@[j].workspace@ == workspace@);
                    assert(j == i as int);
                }
                return Some(i);
            }
            i += 1;
        }
        None
    }

    /// Handle one bind command: see `spec_bind_outcome` for the full effect.
    pub fn handle_bind(&mut self, workspace: String) -> (r: Result<usize, VfsError>)
        requires
            old(self).wf(),
        ensures
            final(self).wf(),
            final(self).config() == old(self).config(),
            spec_bind_outcome(
                old(self).mounts(),
                old(self).config(),
                workspace@,
                final(self).mounts(),
                r,
            ),
    {
        match self.find_workspace(&workspace) {
            Some(i) => {
                match self.mounts[i].state {
                    MountState::Served(p) => {
                        proof {
                            assert(self.mounts@[i as int].state == MountState::Served(p));
                        }
                        Ok(p)
                    },
                    MountState::BindFailed => Err(VfsError::BindFailed),
                }
            },
            None => {
                let mut chosen: Option<usize> = None;
                let mut attempts: usize = 0;
                while attempts < MAX_BIND_ATTEMPTS && chosen.is_none()
                    invariant
                        self == old(self),
                        old(self).wf(),
                        match chosen {
                            Some(p) => self.config.min_nfs_port <= p <= self.config.max_nfs_port
                                && !spec_port_in_use(self.mounts@, p),
                            None => true,
                        },
                        spec_no_served_mount(self.mounts@) && attempts > 0 ==> chosen is Some,
                    decreases MAX_BIND_ATTEMPTS - attempts,
                {
                    let port = draw_port(self.config.min_nfs_port, self.config.max_nfs_port);
                    if !self.port_in_use(port) {
                        chosen = Some(port);
                    } else {
                        proof {
                            let w = choose|k: int|
                                0 <= k < self.mounts@.len() && (#[trigger] self.mounts@[k]).state
                                    == MountState::Served(port);
                            assert(self.mounts@[w].state is Served);
                            assert(!spec_no_served_mount(self.mounts@));
                        }
                    }
                    attempts += 1;
                }
                let state = match chosen {
                    Some(port) => MountState::Served(port),
                    None => MountState::BindFailed,
                };
                self.mounts.push(Mount { workspace, state });
                proof {
                    let ms = self.mounts@;
                    let n = old(self).mounts@.len() as int;
                    assert(ms.take(n) =~= old(self).mounts@);
                    assert forall|x: int, y: int| 0 <= x < y < ms.len() implies (
                    #[trigger] ms[x]).workspace@ != (#[trigger] ms[y]).workspace@ by {
                        assert(ms[x] == old(self).mounts@[x]);
                        if y < n {
                            assert(old(self).mounts@[x].workspace@
                                != old(self).mounts@[y].workspace@);
                        } else {
                            assert(old(self).mounts@[x].workspace@ != workspace@);
                        }
                    }
                    assert forall|k: int| 0 <= k < ms.len() implies match (
                    #[trigger] ms[k]).state {
                        MountState::Served(p) => self.config.min_nfs_port <= p
                            <= self.config.max_nfs_port,
                        MountState::BindFailed => true,
                    } by {
                        if k < n {
                            assert(ms[k] == old(self).mounts@[k]);
                        }
                    }
                    assert forall|x: int, y: int| 0 <= x < y < ms.len() implies match ((
                    #[trigger] ms[x]).state, (#[trigger] ms[y]).state) {
                        (MountState::Served(p), MountState::Served(q)) => p != q,
                        _ => true,
                    } by {
                        assert(ms[x] == old(self).mounts@[x]);
                        if y < n {
                            assert(old(self).mounts@[y] == ms[y]);
                        } else {
                            match (ms[x].state, ms[y].state) {
                                (MountState::Served(p), MountState::Served(q)) => {
                                    assert(spec_port_in_use(old(self).mounts@, p));
                                },
                                _ => {},
                            }
                        }
                    }
                }
                match chosen {
                    Some(port) => Ok(port),
                    None => Err(VfsError::BindFailed),
                }
            },
        }
    }

    /// Handle one queued command: a bind command takes exactly the effect
    /// `spec_bind_outcome` states for its workspace.
    pub fn handle_command(&mut self, cmd: VfsCommand) -> (r: Result<usize, VfsError>)
        requires
            old(self).wf(),
        ensures
            final(self).wf(),
            final(self).config() == old(self).config(),
            match cmd {
                VfsCommand::Bind { workspace } => spec_bind_outcome(
                    old(self).mounts(),
                    old(self).config(),
                    workspace@,
                    final(self).mounts(),
                    r,
                ),
            },
    {
        match cmd {
            VfsCommand::Bind { workspace } => self.handle_bind(workspace),
        }
    }

    /// The port serving the named workspace: `Some(p)` exactly when the
    /// workspace's record is served at `p`, `None` when it has no record or
    /// its bind failed.
    pub fn served_port(&self, workspace: &String) -> (r: Option<usize>)
        requires
            self.wf(),
        ensures
            match spec_ws_index(self.mounts(), workspace@) {
                Some(i) => match self.mounts()[i].state {
                    MountState::Served(p) => r == Some(p),
                    MountState::BindFailed => r is None,
                },
                None => r is None,
            },
    {
        match self.find_workspace(workspace) {
            Some(i) => match self.mounts[i].state {
                MountState::Served(p) => Some(p),
                MountState::BindFailed => None,
            },
            None => None,
        }
    }

    /// Record that the named workspace's spawned server failed to come up:
    /// its record becomes the terminal failure, freeing the port; every
    /// other record, and a workspace with no record, is untouched.
    pub fn mark_bind_failed(&mut self, workspace: &String)
        requires
            old(self).wf(),
        ensures
            final(self).wf(),
            final(self).config() == old(self).config(),
            match spec_ws_index(old(self).mounts(), workspace@) {
                Some(i) => {
                    &&& final(self).mounts().len() == old(self).mounts().len()
                    &&& final(self).mounts()[i].workspace@ == old(self).mounts()[i].workspace@
                    &&& final(self).mounts()[i].state == MountState::BindFailed
                    &&& forall|j: int|
                        0 <= j < old(self).mounts().len() && j != i ==> final(self).mounts()[j]
                            == old(self).mounts()[j]
                },
                None => final(self).mounts() == old(self).mounts(),
            },
    {
        match self.find_workspace(workspace) {
            Some(i) => {
                let w = self.mounts[i].workspace.clone();
                self.mounts.set(i, Mount { workspace: w, state: MountState::BindFailed });
                proof {
                    let ms = self.mounts@;
                    let pre = old(self).mounts@;
                    assert(ms[i as int].workspace@ == pre[i as int].workspace@);
                    assert forall|x: int, y: int| 0 <= x < y < ms.len() implies (
                    #[trigger] ms[x]).workspace@ != (#[trigger] ms[y]).workspace@ by {
                        assert(pre[x].workspace@ != pre[y].workspace@);
                        if x != i as int {
                            assert(ms[x] == pre[x]);
                        }
                        if y != i as int {
                            assert(ms[y] == pre[y]);
                        }
                    }
                    assert forall|k: int| 0 <= k < ms.len() implies match (
                    #[trigger] ms[k]).state {
                        MountState::Served(p) => self.config.min_nfs_port <= p
                            <= self.config.max_nfs_port,
                        MountState::BindFailed => true,
                    } by {
                        if k != i as int {
                            assert(ms[k] == pre[k]);
                        }
                    }
                    assert forall|x: int, y: int| 0 <= x < y < ms.len() implies match ((
                    #[trigger] ms[x]).state, (#[trigger] ms[y]).state) {
                        (MountState::Served(p), MountState::Served(q)) => p != q,
                        _ => true,
                    } by {
                        if x != i as int && y != i as int {
                            assert(ms[x] == pre[x] && ms[y] == pre[y]);
                        }
                    }
                }
            },
            None => {},
        }
    }
}

// ---------------------------------------------------------------------------
// Law: bind commands are handled one at a time in arrival order, so two bind
// commands — however concurrently their callers submitted them — take effect
// sequentially. The hypotheses below are exactly what `handle_bind` ensures
// for each of the two commands, from any well-formed actor state.
// ---------------------------------------------------------------------------

/// Law: two binds of distinct workspaces that both succeed serve distinct
/// ports, both allocations are live afterwards, and neither overwrites the
/// other's. (Two binds of the same workspace deliberately share its port.)
pub proof fn lemma_sequential_binds_get_distinct_ports(
    s0: VfsManager,
    s1: VfsManager,
    s2: VfsManager,
    w1: Seq<char>,
    w2: Seq<char>,
    p1: usize,
    p2: usize,
)
    requires
        s0.wf(),
        s1.wf(),
        s2.wf(),
        w1 != w2,
        spec_bind_outcome(
            s0.mounts(),
            s0.config(),
            w1,
            s1.mounts(),
            Result::<usize, VfsError>::Ok(p1),
        ),
        spec_bind_outcome(
            s1.mounts(),
            s1.config(),
            w2,
            s2.mounts(),
            Result::<usize, VfsError>::Ok(p2),
        ),
    ensures
        p1 != p2,
        spec_port_in_use(s2.mounts(), p1),
        spec_port_in_use(s2.mounts(), p2),
{
    let m0 = s0.mounts();
    let m1 = s1.mounts();
    let m2 = s2.mounts();
    // the first bind leaves a record of w1 served at p1 in m1
    let i1: int = match spec_ws_index(m0, w1) {
        Some(i) => {
            assert(m0[i].workspace@ == w1);
            i
        },
        None => m0.len() as int,
    };
    assert(0 <= i1 < m1.len());
    assert(m1[i1].workspace@ == w1 && m1[i1].state == MountState::Served(p1));
    assert(spec_port_in_use(m1, p1));
    match spec_ws_index(m1, w2) {
        Some(i2) => {
            assert(m1[i2].workspace@ == w2);
            assert(m2 == m1);
            assert(m1[i2].state == MountState::Served(p2));
            assert(i2 != i1);
            // two distinct live records of a well-formed actor: distinct ports
            if i1 < i2 {
                assert(match (m1[i1].state, m1[i2].state) {
                    (MountState::Served(p), MountState::Served(q)) => p != q,
                    _ => true,
                });
            } else {
                assert(match (m1[i2].state, m1[i1].state) {
                    (MountState::Served(p), MountState::Served(q)) => p != q,
                    _ => true,
                });
            }
            assert(spec_port_in_use(m2, p1));
            assert(spec_port_in_use(m2, p2));
        },
        None => {
            // the second bind appends; its port collided with no live mount,
            // p1 among them
            assert(!spec_port_in_use(m1, p2));
            assert(p1 != p2);
            assert(m2.last().state == MountState::Served(p2));
            assert(m2[m2.len() - 1].state == MountState::Served(p2));
            assert(spec_port_in_use(m2, p2));
            assert(m2.take(m1.len() as int)[i1] == m2[i1]);
            assert(m2[i1] == m1[i1]);
            assert(spec_port_in_use(m2, p1));
        },
    }
}

} // verus!
