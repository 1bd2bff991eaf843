//! The four primitive object kinds of the store: files, symlinks, trees and
//! commits, together with their mathematical views.

use vstd::prelude::*;

use crate::ids::Id;

verus! {

/// A file: a byte-sequence content blob.
#[derive(Debug, PartialEq, Eq)]
pub struct File {
    pub content: Vec<u8>,
}

impl View for File {
    type V = Seq<u8>;

    open spec fn view(&self) -> Seq<u8> {
        self.content@
    }
}

impl Clone for File {
    fn clone(&self) -> (r: Self)
        ensures
            r@ == self@,
    {
        File { content: self.content.clone() }
    }
}

/// A symlink: a target path string.
#[derive(Debug, PartialEq, Eq)]
pub struct Symlink {
    pub target: String,
}

impl View for Symlink {
    type V = Seq<char>;

    open spec fn view(&self) -> Seq<char> {
        self.target@
    }
}

impl Clone for Symlink {
    fn clone(&self) -> (r: Self)
        ensures
            r@ == self@,
    {
        Symlink { target: self.target.clone() }
    }
}

/// A commit timestamp: milliseconds since the epoch plus a timezone offset.
#[derive(Debug, PartialEq, Eq)]
pub struct CommitTimestamp {
    pub millis_since_epoch: i64,
    pub tz_offset: i32,
}

/// Mathematical view of a [`CommitTimestamp`].
#[verifier::ext_equal]
pub struct TimestampView {
    pub millis_since_epoch: i64,
    pub tz_offset: i32,
}

impl View for CommitTimestamp {
    type V = TimestampView;

    open spec fn view(&self) -> TimestampView {
        TimestampView {
            millis_since_epoch: self.millis_since_epoch,
            tz_offset: self.tz_offset,
        }
    }
}

impl Clone for CommitTimestamp {
    fn clone(&self) -> (r: Self)
        ensures
            r@ == self@,
    {
        CommitTimestamp {
            millis_since_epoch: self.millis_since_epoch,
            tz_offset: self.tz_offset,
        }
    }
}

/// A commit signature: who authored or committed, and when.
#[derive(Debug, PartialEq, Eq)]
pub struct CommitSignature {
    pub name: String,
    pub email: String,
    pub timestamp: CommitTimestamp,
}

/// Mathematical view of a [`CommitSignature`].
#[verifier::ext_equal]
pub struct SignatureView {
    pub name: Seq<char>,
    pub email: Seq<char>,
    pub timestamp: TimestampView,
}

impl View for CommitSignature {
    type V = SignatureView;

    open spec fn view(&self) -> SignatureView {
        SignatureView { name: self.name@, email: self.email@, timestamp: self.timestamp@ }
    }
}

impl Clone for CommitSignature {
    fn clone(&self) -> (r: Self)
        ensures
            r@ == self@,
    {
        CommitSignature {
            name: self.name.clone(),
            email: self.email.clone(),
            timestamp: self.timestamp.clone(),
        }
    }
}

/// An immutable revision record with parent links.
///
/// `parents` must be non-empty when written to the store; a commit with no
/// real ancestor carries the all-zero sentinel [`Id`] as its sole parent.
#[derive(Debug, PartialEq, Eq)]
pub struct Commit {
    pub parents: Vec<Id>,
    pub predecessors: Vec<Id>,
    pub root_tree: Id,
    pub uses_tree_conflict_format: bool,
    pub change_id: Vec<u8>,
    pub description: String,
    pub author: Option<CommitSignature>,
    pub committer: Option<CommitSignature>,
}

/// Mathematical view of a [`Commit`].
#[verifier::ext_equal]
pub struct CommitView {
    pub parents: Seq<Seq<u8>>,
    pub predecessors: Seq<Seq<u8>>,
    pub root_tree: Seq<u8>,
    pub uses_tree_conflict_format: bool,
    pub change_id: Seq<u8>,
    pub description: Seq<char>,
    pub author: Option<SignatureView>,
    pub committer: Option<SignatureView>,
}

impl View for Commit {
    type V = CommitView;

    open spec fn view(&self) -> CommitView {
        CommitView {
            parents: self.parents@.map_values(|p: Id| p@),
            predecessors: self.predecessors@.map_values(|p: Id| p@),
            root_tree: self.root_tree@,
            uses_tree_conflict_format: self.uses_tree_conflict_format,
            change_id: self.change_id@,
            description: self.description@,
            author: match self.author {
                Some(s) => Some(s@),
                None => None,
            },
            committer: match self.committer {
                Some(s) => Some(s@),
                None => None,
            },
        }
    }
}

impl Clone for Commit {
    fn clone(&self) -> (r: Self)
        ensures
            r@ == self@,
    {
        let author = match &self.author {
            Some(s) => Some(s.clone()),
            None => None,
        };
        let committer = match &self.committer {
            Some(s) => Some(s.clone()),
            None => None,
        };
        let r = Commit {
            parents: clone_id_vec(&self.parents),
            predecessors: clone_id_vec(&self.predecessors),
            root_tree: self.root_tree,
            uses_tree_conflict_format: self.uses_tree_conflict_format,
            change_id: self.change_id.clone(),
            description: self.description.clone(),
            author,
            committer,
        };
        proof {
            assert(r@ =~= self@);
        }
        r
    }
}

/// Copy a vector of identifiers element by element.
fn clone_id_vec(v: &Vec<Id>) -> (r: Vec<Id>)
    ensures
        r@ == v@,
{
    let mut r: Vec<Id> = Vec::new();
    let mut i: usize = 0;
    while i < v.len()
        invariant
            i <= v.len(),
            r@ == v@.take(i as int),
        decreases v.len() - i,
    {
        r.push(v[i]);
        proof {
            assert(r@ =~= v@.take(i + 1 as int));
        }
        i += 1;
    }
    proof {
        assert(v@.take(v@.len() as int) =~= v@);
    }
    r
}

/// A named child of a tree: one of the closed set of entry kinds.
#[derive(Debug, PartialEq, Eq)]
pub enum TreeEntry {
    File { id: Id, executable: bool },
    TreeId(Id),
    SymlinkId(Id),
    ConflictId(Id),
}

/// Mathematical view of a [`TreeEntry`].
#[verifier::ext_equal]
pub enum TreeEntryView {
    File { id: Seq<u8>, executable: bool },
    TreeId(Seq<u8>),
    SymlinkId(Seq<u8>),
    ConflictId(Seq<u8>),
}

impl View for TreeEntry {
    type V = TreeEntryView;

    open spec fn view(&self) -> TreeEntryView {
        match *self {
            TreeEntry::File { id, executable } => TreeEntryView::File { id: id@, executable },
            TreeEntry::TreeId(id) => TreeEntryView::TreeId(id@),
            TreeEntry::SymlinkId(id) => TreeEntryView::SymlinkId(id@),
            TreeEntry::ConflictId(id) => TreeEntryView::ConflictId(id@),
        }
    }
}

impl Clone for TreeEntry {
    fn clone(&self) -> (r: Self)
        ensures
            r@ == self@,
    {
        match self {
            TreeEntry::File { id, executable } => TreeEntry::File {
                id: *id,
                executable: *executable,
            },
            TreeEntry::TreeId(id) => TreeEntry::TreeId(*id),
            TreeEntry::SymlinkId(id) => TreeEntry::SymlinkId(*id),
            TreeEntry::ConflictId(id) => TreeEntry::ConflictId(*id),
        }
    }
}

/// A named entry of a tree.
#[derive(Debug, PartialEq, Eq)]
pub struct TreeEntryMapping {
    pub name: String,
    pub entry: TreeEntry,
}

/// Mathematical view of a [`TreeEntryMapping`].
#[verifier::ext_equal]
pub struct MappingView {
    pub name: Seq<char>,
    pub entry: TreeEntryView,
}

impl View for TreeEntryMapping {
    type V = MappingView;

    open spec fn view(&self) -> MappingView {
        MappingView { name: self.name@, entry: self.entry@ }
    }
}

impl Clone for TreeEntryMapping {
    fn clone(&self) -> (r: Self)
        ensures
            r@ == self@,
    {
        TreeEntryMapping { name: self.name.clone(), entry: self.entry.clone() }
    }
}

/// A directory snapshot: an ordered sequence of named entries.
///
/// Entry order is significant: the content hash covers the sequence exactly
/// as stored, so the same entries in another order form a distinct tree.
/// Name uniqueness is not enforced; callers own that policy.
#[derive(Debug, PartialEq, Eq)]
pub struct Tree {
    pub entries: Vec<TreeEntryMapping>,
}

/// Mathematical view of a [`Tree`].
#[verifier::ext_equal]
pub struct TreeView {
    pub entries: Seq<MappingView>,
}

impl View for Tree {
    type V = TreeView;

    open spec fn view(&self) -> TreeView {
        TreeView { entries: self.entries@.map_values(|m: TreeEntryMapping| m@) }
    }
}

impl Clone for Tree {
    fn clone(&self) -> (r: Self)
        ensures
            r@ == self@,
    {
        let mut entries: Vec<TreeEntryMapping> = Vec::new();
        let mut i: usize = 0;
        while i < self.entries.len()
            invariant
                i <= self.entries.len(),
                entries@.len() == i,
                forall|j: int| 0 <= j < i ==> entries@[j]@ == self.entries@[j]@,
            decreases self.entries.len() - i,
        {
            entries.push(self.entries[i].clone());
            i += 1;
        }
        let r = Tree { entries };
        proof {
            assert(r@.entries =~= self@.entries);
            assert(r@ =~= self@);
        }
        r
    }
}

/// The view of the empty directory snapshot.
pub open spec fn empty_tree_view() -> TreeView {
    TreeView { entries: Seq::empty() }
}

impl Tree {
    /// The empty directory snapshot.
    pub fn empty() -> (r: Tree)
        ensures
            r@ == empty_tree_view(),
    {
        let r = Tree { entries: Vec::new() };
        proof {
            assert(r@ =~= empty_tree_view());
        }
        r
    }
}

} // verus!
