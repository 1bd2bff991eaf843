//! The virtual filesystem capability: the operation surface a per-mount
//! filesystem server presents over the network-filesystem protocol.
//!
//! Reads resolve a name through the checkout mapping to an object identifier
//! and fetch its content from the object store; writes buffer into a
//! per-mount journal that a later snapshot materializes into new objects.
//! Operations not yet backed answer the protocol's not-supported status,
//! never a fault.
//!
//! The packet layer of the protocol lives outside the library; these
//! functions are the decisions behind each operation.

use vstd::prelude::*;

use crate::ids::Id;
use crate::service::CheckoutState;
use crate::store::Store;

verus! {

/// What a mount lets callers do.
#[derive(Clone, Copy, Debug, PartialEq, Eq, Structural)]
pub enum VfsCapabilities {
    ReadOnly,
    ReadWrite,
}

/// The protocol-level outcome of a failed filesystem operation.
#[derive(Clone, Copy, Debug, PartialEq, Eq, Structural)]
pub enum VfsStatus {
    /// The handle or name resolves to nothing.
    NotFound,
    /// The operation is not backed yet.
    NotSupported,
    /// The request's numbers do not fit the file.
    Invalid,
}

/// One node of the presented working copy: a name in the root directory and
/// the object it currently holds.
#[derive(Debug)]
pub struct VfsNode {
    pub name: String,
    pub id: Id,
}

/// The attributes of a node, as the protocol reports them.
#[derive(Clone, Copy, Debug, PartialEq, Eq, Structural)]
pub struct VfsAttr {
    pub fileid: u64,
    pub size: u64,
    pub is_dir: bool,
}

/// One buffered write, to be materialized by a later snapshot.
#[derive(Debug)]
pub struct WriteOp {
    pub fileid: u64,
    pub offset: u64,
    pub data: Vec<u8>,
}

/// One row of a directory listing.
#[derive(Debug, PartialEq, Eq)]
pub struct DirEntry {
    pub fileid: u64,
    pub name: String,
}

/// The handle of the root directory.
pub const ROOT_FILEID: u64 = 1;

/// The handle of the node at the given index of the table: handles start
/// right after the root's.
pub open spec fn fileid_of_index(i: int) -> int {
    i + 2
}

/// A per-mount filesystem view: the checkout's nodes, presented flat under
/// the root directory, and the journal of buffered writes.
pub struct VirtualFileSystem {
    nodes: Vec<VfsNode>,
    journal: Vec<WriteOp>,
}

impl Default for VirtualFileSystem {
    /// An empty view: no nodes, no buffered writes.
    fn default() -> (r: Self)
        ensures
            r.nodes().len() == 0,
            r.journal().len() == 0,
    {
        VirtualFileSystem { nodes: Vec::new(), journal: Vec::new() }
    }
}

impl VirtualFileSystem {
    /// The presented nodes, in checkout order.
    pub closed spec fn nodes(&self) -> Seq<VfsNode> {
        self.nodes@
    }

    /// The buffered writes, oldest first.
    pub closed spec fn journal(&self) -> Seq<WriteOp> {
        self.journal@
    }

    /// Present a checkout: one node per binding, in order.
    pub fn from_checkout(cs: &CheckoutState) -> (r: VirtualFileSystem)
        ensures
            r.nodes().len() == cs.entries@.len(),
            forall|i: int|
                0 <= i < cs.entries@.len() ==> (#[trigger] r.nodes()[i]).name@
                    == cs.entries@[i].path@ && r.nodes()[i].id@ == cs.entries@[i].id@,
            r.journal().len() == 0,
    {
        let mut nodes: Vec<VfsNode> = Vec::new();
        let mut i: usize = 0;
        while i < cs.entries.len()
            invariant
                i <= cs.entries@.len(),
                nodes@.len() == i,
                forall|j: int|
                    0 <= j < i ==> (#[trigger] nodes@[j]).name@ == cs.entries@[j].path@
                        && nodes@[j].id@ == cs.entries@[j].id@,
            decreases cs.entries@.len() - i,
        {
            nodes.push(VfsNode { name: cs.entries[i].path.clone(), id: cs.entries[i].id });
            i += 1;
        }
        VirtualFileSystem { nodes, journal: Vec::new() }
    }

    /// The handle of the root directory.
    pub fn root_dir(&self) -> (r: u64)
        ensures
            r == ROOT_FILEID,
    {
        ROOT_FILEID
    }

    /// The mount is writable: writes buffer into the journal.
    pub fn capabilities(&self) -> (r: VfsCapabilities)
        ensures
            r == VfsCapabilities::ReadWrite,
    {
        VfsCapabilities::ReadWrite
    }

    /// Resolve a name in a directory to a handle. Only the root directory
    /// exists; an unknown name or directory is `NotFound`.
    pub fn lookup(&self, dirid: u64, name: &String) -> (r: Result<u64, VfsStatus>)
        requires
            self.nodes().len() + 2 <= u64::MAX,
        ensures
            match r {
                Ok(fid) => {
                    &&& dirid == ROOT_FILEID
                    &&& exists|i: int|
                        0 <= i < self.nodes().len() && (#[trigger] self.nodes()[i]).name@ == name@
                            && fid == fileid_of_index(i)
                },
                Err(e) => e == VfsStatus::NotFound && (dirid != ROOT_FILEID || forall|i: int|
                    0 <= i < self.nodes().len() ==> (#[trigger] self.nodes()[i]).name@ != name@),
            },
    {
        if dirid != ROOT_FILEID {
            return Err(VfsStatus::NotFound);
        }
        let mut i: usize = 0;
        while i < self.nodes.len()
            invariant
                dirid == ROOT_FILEID,
                i <= self.nodes@.len(),
                self.nodes@.len() + 2 <= u64::MAX,
                forall|j: int| 0 <= j < i ==> (#[trigger] self.nodes@[j]).name@ != name@,
            decreases self.nodes@.len() - i,
        {
            if self.nodes[i].name == *name {
                let fid = (i as u64) + 2;
                proof {
                    assert(self.nodes()[i as int].name@ == name@ && fid == fileid_of_index(
                        i as int,
                    ));
                }
                return Ok(fid);
            }
            i += 1;
        }
        Err(VfsStatus::NotFound)
    }

    /// The attributes of a handle: the root is a directory; a file's size is
    /// its stored content length. `NotFound` exactly when the handle is
    /// neither the root nor a table index whose object the store holds.
    pub fn getattr(&self, store: &Store, fid: u64) -> (r: Result<VfsAttr, VfsStatus>)
        requires
            store.wf(),
        ensures
            match r {
                Ok(attr) => attr.fileid == fid && if fid == ROOT_FILEID {
                    attr.is_dir
                } else {
                    &&& !attr.is_dir
                    &&& 2 <= fid && fid - 2 < self.nodes().len()
                    &&& store.files().contains_key(self.nodes()[fid - 2].id@)
                    &&& attr.size == store.files()[self.nodes()[fid - 2].id@].len()
                },
                Err(e) => {
                    &&& e == VfsStatus::NotFound
                    &&& fid != ROOT_FILEID
                    &&& (fid < 2 || fid - 2 >= self.nodes().len() || !store.files().contains_key(
                        self.nodes()[fid - 2].id@,
                    ))
                },
            },
    {
        if fid == ROOT_FILEID {
            return Ok(VfsAttr { fileid: fid, size: 0, is_dir: true });
        }
        if fid < 2 || fid - 2 >= self.nodes.len() as u64 {
            return Err(VfsStatus::NotFound);
        }
        let idx = (fid - 2) as usize;
        match store.get_file(&self.nodes[idx].id) {
            Some(f) => Ok(VfsAttr { fileid: fid, size: f.content.len() as u64, is_dir: false }),
            None => Err(VfsStatus::NotFound),
        }
    }

    /// Read up to `count` bytes of a file at `offset`: exactly the stored
    /// content clipped to the file's length, with the end-of-file flag set
    /// when the read reaches it. `NotFound` exactly when the handle is
    /// outside the table or its object is not in the store.
    pub fn read(&self, store: &Store, fid: u64, offset: u64, count: u32) -> (r: Result<
        (Vec<u8>, bool),
        VfsStatus,
    >)
        requires
            store.wf(),
        ensures
            match r {
                Ok((data, eof)) => {
                    &&& 2 <= fid && fid - 2 < self.nodes().len()
                    &&& store.files().contains_key(self.nodes()[fid - 2].id@)
                    &&& {
                        let content = store.files()[self.nodes()[fid - 2].id@];
                        let start = if offset <= content.len() {
                            offset as int
                        } else {
                            content.len() as int
                        };
                        let end = if offset + count <= content.len() {
                            offset + count
                        } else {
                            content.len() as int
                        };
                        &&& data@ == content.subrange(start, end)
                        &&& eof == (offset + count >= content.len())
                    }
                },
                Err(e) => {
                    &&& e == VfsStatus::NotFound
                    &&& (fid < 2 || fid - 2 >= self.nodes().len() || !store.files().contains_key(
                        self.nodes()[fid - 2].id@,
                    ))
                },
            },
    {
        if fid < 2 || fid - 2 >= self.nodes.len() as u64 {
            return Err(VfsStatus::NotFound);
        }
        let idx = (fid - 2) as usize;
        match store.get_file(&self.nodes[idx].id) {
            Some(f) => {
                let len = f.content.len();
                let start: usize = if offset <= len as u64 {
                    offset as usize
                } else {
                    len
                };
                let end: usize = if count as u64 <= (len - start) as u64 {
                    start + count as usize
                } else {
                    len
                };
                let data = vstd::slice::slice_to_vec(
                    vstd::slice::slice_subrange(f.content.as_slice(), start, end),
                );
                let eof = offset >= len as u64 || count as u64 >= len as u64 - offset;
                proof {
                    let content = store.files()[self.nodes()[fid - 2].id@];
                    let sstart = if offset <= content.len() {
                        offset as int
                    } else {
                        content.len() as int
                    };
                    let send = if offset + count <= content.len() {
                        offset + count
                    } else {
                        content.len() as int
                    };
                    assert(data@ =~= content.subrange(sstart, send));
                }
                Ok((data, eof))
            },
            None => Err(VfsStatus::NotFound),
        }
    }

    /// List the root directory from the entry after `start_after`, at most
    /// `max_entries` rows; `end` says the listing reached the last node.
    pub fn readdir(&self, dirid: u64, start_after: u64, max_entries: usize) -> (r: Result<
        (Vec<DirEntry>, bool),
        VfsStatus,
    >)
        requires
            self.nodes().len() + 2 <= u64::MAX,
        ensures
            match r {
                Ok((entries, end)) => {
                    &&& dirid == ROOT_FILEID
                    &&& {
                        let from = if start_after < 2 {
                            0int
                        } else {
                            start_after - 1
                        };
                        &&& entries@.len() <= max_entries
                        &&& forall|j: int|
                            0 <= j < entries@.len() ==> {
                                &&& (#[trigger] entries@[j]).name@ == self.nodes()[from + j].name@
                                &&& entries@[j].fileid == fileid_of_index(from + j)
                            }
                        &&& end == (from + entries@.len() == self.nodes().len()) || from
                            > self.nodes().len()
                        &&& (entries@.len() < max_entries ==> from + entries@.len()
                            >= self.nodes().len())
                    }
                },
                Err(e) => e == VfsStatus::NotFound && dirid != ROOT_FILEID,
            },
    {
        if dirid != ROOT_FILEID {
            return Err(VfsStatus::NotFound);
        }
        let from: usize = if start_after < 2 {
            0
        } else if start_after - 1 >= self.nodes.len() as u64 {
            self.nodes.len()
        } else {
            (start_after - 1) as usize
        };
        let mut entries: Vec<DirEntry> = Vec::new();
        let mut i: usize = from;
        while i < self.nodes.len() && entries.len() < max_entries
            invariant
                from <= i <= self.nodes@.len(),
                self.nodes@.len() + 2 <= u64::MAX,
                entries@.len() == i - from,
                entries@.len() <= max_entries,
                forall|j: int|
                    0 <= j < entries@.len() ==> {
                        &&& (#[trigger] entries@[j]).name@ == self.nodes@[from + j].name@
                        &&& entries@[j].fileid == fileid_of_index(from + j)
                    },
            decreases self.nodes@.len() - i,
        {
            entries.push(DirEntry { fileid: (i as u64) + 2, name: self.nodes[i].name.clone() });
            i += 1;
        }
        let end = i == self.nodes.len();
        proof {
            if start_after < 2 {
                assert(from == 0);
            }
        }
        Ok((entries, end))
    }

    /// Buffer a write of `data` at `offset` into the journal; a later
    /// snapshot materializes it. Returns the count of bytes accepted. No
    /// write is dropped: a write to a handle in the table whose extent fits
    /// succeeds, and the journal grows by exactly this operation.
    pub fn write(&mut self, fid: u64, offset: u64, data: Vec<u8>) -> (r: Result<u64, VfsStatus>)
        ensures
            match r {
                Ok(n) => {
                    &&& 2 <= fid && fid - 2 < old(self).nodes().len()
                    &&& offset + data@.len() <= u64::MAX
                    &&& n == data@.len()
                    &&& final(self).journal().len() == old(self).journal().len() + 1
                    &&& final(self).journal().take(old(self).journal().len() as int) == old(
                        self,
                    ).journal()
                    &&& final(self).journal().last().fileid == fid
                    &&& final(self).journal().last().offset == offset
                    &&& final(self).journal().last().data@ == data@
                },
                Err(e) => {
                    &&& final(self).journal() == old(self).journal()
                    &&& match e {
                        VfsStatus::NotFound => fid < 2 || fid - 2 >= old(self).nodes().len(),
                        VfsStatus::Invalid => 2 <= fid && fid - 2 < old(self).nodes().len()
                            && offset + data@.len() > u64::MAX,
                        VfsStatus::NotSupported => false,
                    }
                },
            },
            final(self).nodes() == old(self).nodes(),
    {
        if fid < 2 || fid - 2 >= self.nodes.len() as u64 {
            return Err(VfsStatus::NotFound);
        }
        if data.len() as u64 > u64::MAX - offset {
            return Err(VfsStatus::Invalid);
        }
        self.journal.push(WriteOp { fileid: fid, offset, data });
        proof {
            assert(final(self).journal@.take(old(self).journal@.len() as int) =~= old(
                self,
            ).journal@);
        }
        Ok(self.journal[self.journal.len() - 1].data.len() as u64)
    }

    /// Create a file: reserved surface, not yet backed.
    pub fn create(&self, dirid: u64, name: &String) -> (r: Result<u64, VfsStatus>)
        ensures
            r == Result::<u64, VfsStatus>::Err(VfsStatus::NotSupported),
    {
        Err(VfsStatus::NotSupported)
    }

    /// Create a file exclusively: reserved surface, not yet backed.
    pub fn create_exclusive(&self, dirid: u64, name: &String) -> (r: Result<u64, VfsStatus>)
        ensures
            r == Result::<u64, VfsStatus>::Err(VfsStatus::NotSupported),
    {
        Err(VfsStatus::NotSupported)
    }

    /// Set attributes: reserved surface, not yet backed.
    pub fn setattr(&self, fid: u64) -> (r: Result<VfsAttr, VfsStatus>)
        ensures
            r == Result::<VfsAttr, VfsStatus>::Err(VfsStatus::NotSupported),
    {
        Err(VfsStatus::NotSupported)
    }

    /// Remove a name: reserved surface, not yet backed.
    pub fn remove(&self, dirid: u64, name: &String) -> (r: Result<u64, VfsStatus>)
        ensures
            r == Result::<u64, VfsStatus>::Err(VfsStatus::NotSupported),
    {
        Err(VfsStatus::NotSupported)
    }

    /// Rename a node: reserved surface, not yet backed.
    pub fn rename(&self, from_dirid: u64, to_dirid: u64) -> (r: Result<u64, VfsStatus>)
        ensures
            r == Result::<u64, VfsStatus>::Err(VfsStatus::NotSupported),
    {
        Err(VfsStatus::NotSupported)
    }

    /// Make a directory: reserved surface, not yet backed.
    pub fn mkdir(&self, dirid: u64, name: &String) -> (r: Result<u64, VfsStatus>)
        ensures
            r == Result::<u64, VfsStatus>::Err(VfsStatus::NotSupported),
    {
        Err(VfsStatus::NotSupported)
    }

    /// Make a symlink: reserved surface, not yet backed.
    pub fn symlink(&self, dirid: u64, name: &String, target: &String) -> (r: Result<
        u64,
        VfsStatus,
    >)
        ensures
            r == Result::<u64, VfsStatus>::Err(VfsStatus::NotSupported),
    {
        Err(VfsStatus::NotSupported)
    }

    /// Read a symlink's target: reserved surface, not yet backed.
    pub fn readlink(&self, fid: u64) -> (r: Result<String, VfsStatus>)
        ensures
            r == Result::<String, VfsStatus>::Err(VfsStatus::NotSupported),
    {
        Err(VfsStatus::NotSupported)
    }
}

} // verus!
