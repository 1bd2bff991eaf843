//! The in-memory, content-addressed object store: four independent maps,
//! one per object kind, plus the precomputed empty-tree identifier.
//!
//! Objects are immutable once written and never deleted. Writes are
//! idempotent: rewriting identical content yields the same identifier and
//! leaves the store unchanged, holding exactly one copy.

use vstd::prelude::*;
use vstd::pervasive::VecAdditionalExecFns;

use crate::hash::{commit_hash, file_hash, symlink_hash, tree_hash};
use crate::ids::Id;
use crate::objects::{empty_tree_view, Commit, CommitView, File, Symlink, Tree, TreeView};

verus! {

/// Errors of the object store.
#[derive(Clone, Copy, Debug, PartialEq, Eq, Structural)]
pub enum StoreError {
    /// The object is rejected as malformed: a commit with no parents.
    InvalidArgument,
}

/// No two entries share a key.
pub open spec fn unique_keys<V>(s: Seq<(Id, V)>) -> bool {
    forall|i: int, j: int| 0 <= i < j < s.len() ==> (#[trigger] s[i]).0@ != (#[trigger] s[j]).0@
}

/// The map an association list denotes: later entries would win, but the
/// table keeps keys unique, so each key has the one value stored for it.
pub closed spec fn assoc_map<V: View>(s: Seq<(Id, V)>) -> Map<Seq<u8>, V::V>
    decreases s.len(),
{
    if s.len() == 0 {
        Map::empty()
    } else {
        assoc_map(s.drop_last()).insert(s.last().0@, s.last().1@)
    }
}

proof fn lemma_assoc_absent<V: View>(s: Seq<(Id, V)>, k: Seq<u8>)
    requires
        forall|i: int| 0 <= i < s.len() ==> (#[trigger] s[i]).0@ != k,
    ensures
        !assoc_map(s).contains_key(k),
    decreases s.len(),
{
    if s.len() > 0 {
        lemma_assoc_absent(s.drop_last(), k);
    }
}

proof fn lemma_assoc_get<V: View>(s: Seq<(Id, V)>, i: int)
    requires
        unique_keys(s),
        0 <= i < s.len(),
    ensures
        assoc_map(s).contains_key(s[i].0@),
        assoc_map(s)[s[i].0@] == s[i].1@,
    decreases s.len(),
{
    if i < s.len() - 1 {
        assert(s[i].0@ != s.last().0@);
        lemma_assoc_get(s.drop_last(), i);
    }
}

proof fn lemma_assoc_dom<V: View>(s: Seq<(Id, V)>)
    requires
        unique_keys(s),
    ensures
        assoc_map(s).dom().finite(),
        assoc_map(s).dom().len() == s.len(),
    decreases s.len(),
{
    if s.len() > 0 {
        lemma_assoc_dom(s.drop_last());
        lemma_assoc_absent(s.drop_last(), s.last().0@);
    }
}

proof fn lemma_assoc_update<V: View>(s: Seq<(Id, V)>, i: int, id: Id, v: V)
    requires
        unique_keys(s),
        0 <= i < s.len(),
        s[i].0@ == id@,
    ensures
        unique_keys(s.update(i, (id, v))),
        assoc_map(s.update(i, (id, v))) == assoc_map(s).insert(id@, v@),
    decreases s.len(),
{
    let u = s.update(i, (id, v));
    assert forall|x: int, y: int| 0 <= x < y < u.len() implies (#[trigger] u[x]).0@ != (
    #[trigger] u[y]).0@ by {
        assert(s[x].0@ != s[y].0@);
    }
    if i == s.len() - 1 {
        assert(u.drop_last() =~= s.drop_last());
        assert(assoc_map(u) =~= assoc_map(s).insert(id@, v@));
    } else {
        assert(u.drop_last() =~= s.drop_last().update(i, (id, v)));
        assert(unique_keys(s.drop_last())) by {
            assert forall|x: int, y: int|
                0 <= x < y < s.drop_last().len() implies (#[trigger] s.drop_last()[x]).0@ != (
            #[trigger] s.drop_last()[y]).0@ by {
                assert(s[x].0@ != s[y].0@);
            }
        }
        lemma_assoc_update(s.drop_last(), i, id, v);
        assert(s.last().0@ != id@) by {
            assert(s[i].0@ != s[s.len() - 1].0@);
        }
        assert(u.last() == s.last());
        assert(assoc_map(u) =~= assoc_map(s).insert(id@, v@));
    }
}

/// A content-addressed map for one object kind, keyed by identifier.
struct IdTable<V> {
    entries: Vec<(Id, V)>,
}

impl<V: View> IdTable<V> {
    spec fn wf(&self) -> bool {
        unique_keys(self.entries@)
    }

    spec fn view_map(&self) -> Map<Seq<u8>, V::V> {
        assoc_map(self.entries@)
    }

    spec fn count(&self) -> nat {
        self.entries@.len()
    }

    fn new() -> (r: Self)
        ensures
            r.wf(),
            r.view_map() == Map::<Seq<u8>, V::V>::empty(),
            r.count() == 0,
    {
        IdTable { entries: Vec::new() }
    }

    /// Index of the entry holding `id`, if any.
    fn find(&self, id: &Id) -> (r: Option<usize>)
        ensures
            match r {
                Some(i) => i < self.entries@.len() && self.entries@[i as int].0@ == id@,
                None => forall|i: int|
                    0 <= i < self.entries@.len() ==> (#[trigger] self.entries@[i]).0@ != id@,
            },
    {
        let mut i: usize = 0;
        while i < self.entries.len()
            invariant
                i <= self.entries@.len(),
                forall|j: int| 0 <= j < i ==> (#[trigger] self.entries@[j]).0@ != id@,
            decreases self.entries@.len() - i,
        {
            if self.entries[i].0.same(id) {
                return Some(i);
            }
            i += 1;
        }
        None
    }

    fn get<'a>(&'a self, id: &Id) -> (r: Option<&'a V>)
        requires
            self.wf(),
        ensures
            match r {
                Some(v) => self.view_map().contains_key(id@) && v@ == self.view_map()[id@],
                None => !self.view_map().contains_key(id@),
            },
    {
        match self.find(id) {
            Some(i) => {
                proof {
                    lemma_assoc_get(self.entries@, i as int);
                }
                Some(&self.entries[i].1)
            },
            None => {
                proof {
                    lemma_assoc_absent(self.entries@, id@);
                }
                None
            },
        }
    }

    /// Store `v` under `id`, replacing any value the key already holds.
    fn insert(&mut self, id: Id, v: V)
        requires
            old(self).wf(),
        ensures
            final(self).wf(),
            final(self).view_map() == old(self).view_map().insert(id@, v@),
            old(self).view_map().contains_key(id@) ==> final(self).count() == old(self).count(),
            !old(self).view_map().contains_key(id@) ==> final(self).count() == old(self).count()
                + 1,
            final(self).count() == final(self).view_map().dom().len(),
    {
        proof {
            lemma_assoc_dom(self.entries@);
        }
        match self.find(&id) {
            Some(i) => {
                proof {
                    lemma_assoc_get(self.entries@, i as int);
                    lemma_assoc_update(self.entries@, i as int, id, v);
                }
                self.entries.set(i, (id, v));
                proof {
                    lemma_assoc_dom(self.entries@);
                }
            },
            None => {
                proof {
                    lemma_assoc_absent(self.entries@, id@);
                }
                self.entries.push((id, v));
                proof {
                    let s = self.entries@;
                    assert(s.drop_last() =~= old(self).entries@);
                    assert(unique_keys(s)) by {
                        assert forall|x: int, y: int| 0 <= x < y < s.len() implies (
                        #[trigger] s[x]).0@ != (#[trigger] s[y]).0@ by {
                            if y < s.len() - 1 {
                                assert(old(self).entries@[x].0@ != old(self).entries@[y].0@);
                            } else {
                                assert(old(self).entries@[x].0@ != id@);
                            }
                        }
                    }
                    lemma_assoc_dom(s);
                }
            },
        }
    }
}

/// The object store: four content-addressed maps, each independent of the
/// others, and the identifier of the empty tree, computed once at
/// construction.
pub struct Store {
    files: IdTable<File>,
    symlinks: IdTable<Symlink>,
    trees: IdTable<Tree>,
    commits: IdTable<Commit>,
    empty_tree_id: Id,
}

impl Store {
    /// The store's integrity: each table keeps keys unique, and the cached
    /// empty-tree identifier is the content hash of the empty tree.
    pub closed spec fn wf(&self) -> bool {
        &&& self.files.wf()
        &&& self.symlinks.wf()
        &&& self.trees.wf()
        &&& self.commits.wf()
        &&& self.empty_tree_id@ == tree_hash(empty_tree_view())
    }

    /// The stored files: content hash to content.
    pub closed spec fn files(&self) -> Map<Seq<u8>, Seq<u8>> {
        self.files.view_map()
    }

    /// The stored symlinks: content hash to target.
    pub closed spec fn symlinks(&self) -> Map<Seq<u8>, Seq<char>> {
        self.symlinks.view_map()
    }

    /// The stored trees: content hash to entry sequence.
    pub closed spec fn trees(&self) -> Map<Seq<u8>, TreeView> {
        self.trees.view_map()
    }

    /// The stored commits: content hash to commit record.
    pub closed spec fn commits(&self) -> Map<Seq<u8>, CommitView> {
        self.commits.view_map()
    }

    /// Number of file objects physically held.
    pub closed spec fn file_count(&self) -> nat {
        self.files.count()
    }

    /// Number of symlink objects physically held.
    pub closed spec fn symlink_count(&self) -> nat {
        self.symlinks.count()
    }

    /// Number of tree objects physically held.
    pub closed spec fn tree_count(&self) -> nat {
        self.trees.count()
    }

    /// Number of commit objects physically held.
    pub closed spec fn commit_count(&self) -> nat {
        self.commits.count()
    }

    /// How many file objects the store physically holds.
    pub fn num_files(&self) -> (r: usize)
        ensures
            r == self.file_count(),
    {
        self.files.entries.len()
    }

    /// How many symlink objects the store physically holds.
    pub fn num_symlinks(&self) -> (r: usize)
        ensures
            r == self.symlink_count(),
    {
        self.symlinks.entries.len()
    }

    /// How many tree objects the store physically holds.
    pub fn num_trees(&self) -> (r: usize)
        ensures
            r == self.tree_count(),
    {
        self.trees.entries.len()
    }

    /// How many commit objects the store physically holds.
    pub fn num_commits(&self) -> (r: usize)
        ensures
            r == self.commit_count(),
    {
        self.commits.entries.len()
    }

    /// Build an empty store, with the empty tree already present.
    pub fn new() -> (s: Store)
        ensures
            s.wf(),
            s.files() == Map::<Seq<u8>, Seq<u8>>::empty(),
            s.symlinks() == Map::<Seq<u8>, Seq<char>>::empty(),
            s.commits() == Map::<Seq<u8>, CommitView>::empty(),
            s.trees() == Map::<Seq<u8>, TreeView>::empty().insert(
                tree_hash(empty_tree_view()),
                empty_tree_view(),
            ),
    {
        let mut trees: IdTable<Tree> = IdTable::new();
        let tree = Tree::empty();
        let empty_tree_id = tree.get_hash();
        trees.insert(empty_tree_id, tree);
        Store {
            files: IdTable::new(),
            symlinks: IdTable::new(),
            trees,
            commits: IdTable::new(),
            empty_tree_id,
        }
    }

    /// The identifier of the empty tree: constant for the store's lifetime,
    /// always equal to the content hash of a tree with no entries.
    pub fn get_empty_tree_id(&self) -> (r: Id)
        requires
            self.wf(),
        ensures
            r@ == tree_hash(empty_tree_view()),
    {
        self.empty_tree_id
    }

    /// Write a file; idempotent, returns its content-derived identifier.
    pub fn write_file(&mut self, file: File) -> (r: Id)
        requires
            old(self).wf(),
        ensures
            final(self).wf(),
            r@ == file_hash(file@),
            final(self).files() == old(self).files().insert(file_hash(file@), file@),
            final(self).file_count() == final(self).files().dom().len(),
            old(self).files().contains_key(file_hash(file@)) ==> final(self).file_count() == old(self).file_count(),
            final(self).symlinks() == old(self).symlinks(),
            final(self).trees() == old(self).trees(),
            final(self).commits() == old(self).commits(),
    {
        let id = file.get_hash();
        self.files.insert(id, file);
        id
    }

    /// Read a file by identifier; `None` when the store does not hold it.
    pub fn get_file(&self, id: &Id) -> (r: Option<File>)
        requires
            self.wf(),
        ensures
            match r {
                Some(f) => self.files().contains_key(id@) && f@ == self.files()[id@],
                None => !self.files().contains_key(id@),
            },
    {
        match self.files.get(id) {
            Some(f) => Some(f.clone()),
            None => None,
        }
    }

    /// Write a symlink; idempotent, returns its content-derived identifier.
    pub fn write_symlink(&mut self, symlink: Symlink) -> (r: Id)
        requires
            old(self).wf(),
        ensures
            final(self).wf(),
            r@ == symlink_hash(symlink@),
            final(self).symlinks() == old(self).symlinks().insert(
                symlink_hash(symlink@),
                symlink@,
            ),
            final(self).symlink_count() == final(self).symlinks().dom().len(),
            old(self).symlinks().contains_key(symlink_hash(symlink@)) ==> final(self).symlink_count() == old(self).symlink_count(),
            final(self).files() == old(self).files(),
            final(self).trees() == old(self).trees(),
            final(self).commits() == old(self).commits(),
    {
        let id = symlink.get_hash();
        self.symlinks.insert(id, symlink);
        id
    }

    /// Read a symlink by identifier; `None` when the store does not hold it.
    pub fn get_symlink(&self, id: &Id) -> (r: Option<Symlink>)
        requires
            self.wf(),
        ensures
            match r {
                Some(s) => self.symlinks().contains_key(id@) && s@ == self.symlinks()[id@],
                None => !self.symlinks().contains_key(id@),
            },
    {
        match self.symlinks.get(id) {
            Some(s) => Some(s.clone()),
            None => None,
        }
    }

    /// Write a tree; idempotent, returns its content-derived identifier.
    pub fn write_tree(&mut self, tree: Tree) -> (r: Id)
        requires
            old(self).wf(),
        ensures
            final(self).wf(),
            r@ == tree_hash(tree@),
            final(self).trees() == old(self).trees().insert(tree_hash(tree@), tree@),
            final(self).tree_count() == final(self).trees().dom().len(),
            old(self).trees().contains_key(tree_hash(tree@)) ==> final(self).tree_count() == old(self).tree_count(),
            final(self).files() == old(self).files(),
            final(self).symlinks() == old(self).symlinks(),
            final(self).commits() == old(self).commits(),
    {
        let id = tree.get_hash();
        self.trees.insert(id, tree);
        id
    }

    /// Read a tree by identifier; `None` when the store does not hold it.
    pub fn get_tree(&self, id: &Id) -> (r: Option<Tree>)
        requires
            self.wf(),
        ensures
            match r {
                Some(t) => self.trees().contains_key(id@) && t@ == self.trees()[id@],
                None => !self.trees().contains_key(id@),
            },
    {
        match self.trees.get(id) {
            Some(t) => Some(t.clone()),
            None => None,
        }
    }

    /// Write a commit; idempotent, returns its content-derived identifier.
    ///
    /// A commit with no parents is rejected with `InvalidArgument` and the
    /// store is left unchanged: a root commit carries the sentinel
    /// identifier as its sole parent instead.
    pub fn write_commit(&mut self, commit: Commit) -> (r: Result<Id, StoreError>)
        requires
            old(self).wf(),
        ensures
            final(self).wf(),
            commit.parents@.len() == 0 <==> r == Result::<Id, StoreError>::Err(
                StoreError::InvalidArgument,
            ),
            match r {
                Ok(id) => {
                    &&& id@ == commit_hash(commit@)
                    &&& final(self).commits() == old(self).commits().insert(
                        commit_hash(commit@),
                        commit@,
                    )
                    &&& final(self).commit_count() == final(self).commits().dom().len()
                    &&& (old(self).commits().contains_key(commit_hash(commit@)) ==> final(self).commit_count() == old(self).commit_count())
                },
                Err(_) => *final(self) == *old(self),
            },
            final(self).files() == old(self).files(),
            final(self).symlinks() == old(self).symlinks(),
            final(self).trees() == old(self).trees(),
    {
        if commit.parents.len() == 0 {
            return Err(StoreError::InvalidArgument);
        }
        let id = commit.get_hash();
        self.commits.insert(id, commit);
        Ok(id)
    }

    /// Read a commit by identifier; `None` when the store does not hold it.
    pub fn get_commit(&self, id: &Id) -> (r: Option<Commit>)
        requires
            self.wf(),
        ensures
            match r {
                Some(c) => self.commits().contains_key(id@) && c@ == self.commits()[id@],
                None => !self.commits().contains_key(id@),
            },
    {
        match self.commits.get(id) {
            Some(c) => Some(c.clone()),
            None => None,
        }
    }
}

// ---------------------------------------------------------------------------
// Laws of the store. The round-trip lemmas take a store in the state a write
// leaves behind (the write's postcondition is their hypothesis) and a result
// of the matching read, and conclude the read returns exactly what was
// written. The idempotence lemmas chain two writes of equal content.
// ---------------------------------------------------------------------------

/// Law: round trip for files: reading the identifier a write returned yields
/// the written content.
pub proof fn lemma_file_round_trip(pre: Store, post: Store, f: File, id: Id, r: Option<File>)
    requires
        id@ == file_hash(f@),
        post.files() == pre.files().insert(file_hash(f@), f@),
        call_ensures(Store::get_file, (&post, &id), r),
    ensures
        r is Some,
        r.unwrap()@ == f@,
{
}

/// Law: round trip for symlinks.
pub proof fn lemma_symlink_round_trip(
    pre: Store,
    post: Store,
    s: Symlink,
    id: Id,
    r: Option<Symlink>,
)
    requires
        id@ == symlink_hash(s@),
        post.symlinks() == pre.symlinks().insert(symlink_hash(s@), s@),
        call_ensures(Store::get_symlink, (&post, &id), r),
    ensures
        r is Some,
        r.unwrap()@ == s@,
{
}

/// Law: round trip for trees: the entries come back with names and order
/// preserved.
pub proof fn lemma_tree_round_trip(pre: Store, post: Store, t: Tree, id: Id, r: Option<Tree>)
    requires
        id@ == tree_hash(t@),
        post.trees() == pre.trees().insert(tree_hash(t@), t@),
        call_ensures(Store::get_tree, (&post, &id), r),
    ensures
        r is Some,
        r.unwrap()@ == t@,
{
}

/// Law: round trip for commits: every field — parents, predecessors, root
/// tree, conflict format, change id, description, author, committer — comes
/// back exactly.
pub proof fn lemma_commit_round_trip(pre: Store, post: Store, c: Commit, id: Id, r: Option<Commit>)
    requires
        id@ == commit_hash(c@),
        post.commits() == pre.commits().insert(commit_hash(c@), c@),
        call_ensures(Store::get_commit, (&post, &id), r),
    ensures
        r is Some,
        r.unwrap()@ == c@,
{
}

/// Law: writing the same file content twice returns the same identifier both
/// times, and the second write leaves the store unchanged, holding exactly
/// one copy.
pub proof fn lemma_file_write_idempotent(
    mid: Store,
    post: Store,
    f1: File,
    f2: File,
    id1: Id,
    id2: Id,
)
    requires
        f1@ == f2@,
        id1@ == file_hash(f1@),
        id2@ == file_hash(f2@),
        post.files() == mid.files().insert(file_hash(f2@), f2@),
        mid.files().contains_key(file_hash(f1@)) && mid.files()[file_hash(f1@)] == f1@,
        mid.file_count() == mid.files().dom().len(),
        post.file_count() == post.files().dom().len(),
    ensures
        id1@ == id2@,
        post.files() == mid.files(),
        post.file_count() == mid.file_count(),
{
    assert(post.files() =~= mid.files());
}

/// Law: writing the same symlink twice returns the same identifier both
/// times and leaves the store unchanged.
pub proof fn lemma_symlink_write_idempotent(
    mid: Store,
    post: Store,
    s1: Symlink,
    s2: Symlink,
    id1: Id,
    id2: Id,
)
    requires
        s1@ == s2@,
        id1@ == symlink_hash(s1@),
        id2@ == symlink_hash(s2@),
        post.symlinks() == mid.symlinks().insert(symlink_hash(s2@), s2@),
        mid.symlinks().contains_key(symlink_hash(s1@)) && mid.symlinks()[symlink_hash(s1@)]
            == s1@,
        mid.symlink_count() == mid.symlinks().dom().len(),
        post.symlink_count() == post.symlinks().dom().len(),
    ensures
        id1@ == id2@,
        post.symlinks() == mid.symlinks(),
        post.symlink_count() == mid.symlink_count(),
{
    assert(post.symlinks() =~= mid.symlinks());
}

/// Law: writing the same commit twice returns the same identifier both times
/// and leaves the store unchanged.
pub proof fn lemma_commit_write_idempotent(
    mid: Store,
    post: Store,
    c1: Commit,
    c2: Commit,
    id1: Id,
    id2: Id,
)
    requires
        c1@ == c2@,
        id1@ == commit_hash(c1@),
        id2@ == commit_hash(c2@),
        post.commits() == mid.commits().insert(commit_hash(c2@), c2@),
        mid.commits().contains_key(commit_hash(c1@)) && mid.commits()[commit_hash(c1@)] == c1@,
        mid.commit_count() == mid.commits().dom().len(),
        post.commit_count() == post.commits().dom().len(),
    ensures
        id1@ == id2@,
        post.commits() == mid.commits(),
        post.commit_count() == mid.commit_count(),
{
    assert(post.commits() =~= mid.commits());
}

/// Law: writing the same tree twice returns the same identifier both times
/// and leaves the store unchanged.
pub proof fn lemma_tree_write_idempotent(
    mid: Store,
    post: Store,
    t1: Tree,
    t2: Tree,
    id1: Id,
    id2: Id,
)
    requires
        t1@ == t2@,
        id1@ == tree_hash(t1@),
        id2@ == tree_hash(t2@),
        post.trees() == mid.trees().insert(tree_hash(t2@), t2@),
        mid.trees().contains_key(tree_hash(t1@)) && mid.trees()[tree_hash(t1@)] == t1@,
        mid.tree_count() == mid.trees().dom().len(),
        post.tree_count() == post.trees().dom().len(),
    ensures
        id1@ == id2@,
        post.trees() == mid.trees(),
        post.tree_count() == mid.tree_count(),
{
    assert(post.trees() =~= mid.trees());
}

} // verus!
