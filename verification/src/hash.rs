//! Content hashing: the canonical encoding of an object fed into a 256-bit
//! cryptographic digest.
//!
//! The identifier of an object is a pure function of its logical content:
//! the encoding covers every field in a fixed order, and the digest depends
//! on the encoded bytes alone. Distinct objects give distinct hash inputs
//! (see the separation lemmas of the codec); distinctness of the 256-bit
//! identifiers themselves rests on the digest's collision resistance.

use vstd::prelude::*;

use crate::codec::{
    enc_commit, enc_file, enc_symlink, enc_tree, encode_commit, encode_file, encode_symlink,
    encode_tree,
};
use crate::ids::Id;
use crate::objects::{Commit, CommitView, File, Symlink, Tree, TreeView};

verus! {

/// The 256-bit digest of the named byte string, as the BLAKE3 hash computes
/// it: a fixed function of the bytes alone.
pub uninterp spec fn blake3_of(bytes: Seq<u8>) -> Seq<u8>;

/// Relies on blake3::hash: a 32-byte digest determined by the input bytes
/// alone, identical across processes and machines.
#[verifier::external_body]
fn blake3_digest(bytes: &[u8]) -> (r: [u8; 32])
    ensures
        r@ == blake3_of(bytes@),
{
    *blake3::hash(bytes).as_bytes()
}

/// Content hash of a file.
pub open spec fn file_hash(content: Seq<u8>) -> Seq<u8> {
    blake3_of(enc_file(content))
}

/// Content hash of a symlink.
pub open spec fn symlink_hash(target: Seq<char>) -> Seq<u8> {
    blake3_of(enc_symlink(target))
}

/// Content hash of a tree.
pub open spec fn tree_hash(t: TreeView) -> Seq<u8> {
    blake3_of(enc_tree(t))
}

/// Content hash of a commit.
pub open spec fn commit_hash(c: CommitView) -> Seq<u8> {
    blake3_of(enc_commit(c))
}

impl File {
    /// The content-derived identifier of this file.
    pub fn get_hash(&self) -> (r: Id)
        ensures
            r@ == file_hash(self@),
    {
        let bytes = encode_file(self);
        Id(blake3_digest(bytes.as_slice()))
    }
}

impl Symlink {
    /// The content-derived identifier of this symlink.
    pub fn get_hash(&self) -> (r: Id)
        ensures
            r@ == symlink_hash(self@),
    {
        let bytes = encode_symlink(self);
        Id(blake3_digest(bytes.as_slice()))
    }
}

impl Tree {
    /// The content-derived identifier of this tree: covers the entries in
    /// stored order.
    pub fn get_hash(&self) -> (r: Id)
        ensures
            r@ == tree_hash(self@),
    {
        let bytes = encode_tree(self);
        Id(blake3_digest(bytes.as_slice()))
    }
}

impl Commit {
    /// The content-derived identifier of this commit.
    pub fn get_hash(&self) -> (r: Id)
        ensures
            r@ == commit_hash(self@),
    {
        let bytes = encode_commit(self);
        Id(blake3_digest(bytes.as_slice()))
    }
}

// ---------------------------------------------------------------------------
// Law: content hashing is deterministic. The identifier an object receives
// is a function of its logical content alone, so independent computations on
// equal content return byte-identical identifiers.
// ---------------------------------------------------------------------------

/// Law: two computations of a file's hash on equal content agree.
pub proof fn lemma_file_hash_deterministic(f1: File, f2: File, r1: Id, r2: Id)
    requires
        f1@ == f2@,
        call_ensures(File::get_hash, (&f1,), r1),
        call_ensures(File::get_hash, (&f2,), r2),
    ensures
        r1@ == r2@,
{
}

/// Law: two computations of a symlink's hash on equal targets agree.
pub proof fn lemma_symlink_hash_deterministic(s1: Symlink, s2: Symlink, r1: Id, r2: Id)
    requires
        s1@ == s2@,
        call_ensures(Symlink::get_hash, (&s1,), r1),
        call_ensures(Symlink::get_hash, (&s2,), r2),
    ensures
        r1@ == r2@,
{
}

/// Law: two computations of a tree's hash on equal entry sequences agree.
pub proof fn lemma_tree_hash_deterministic(t1: Tree, t2: Tree, r1: Id, r2: Id)
    requires
        t1@ == t2@,
        call_ensures(Tree::get_hash, (&t1,), r1),
        call_ensures(Tree::get_hash, (&t2,), r2),
    ensures
        r1@ == r2@,
{
}

/// Law: two computations of a commit's hash on equal fields agree.
pub proof fn lemma_commit_hash_deterministic(c1: Commit, c2: Commit, r1: Id, r2: Id)
    requires
        c1@ == c2@,
        call_ensures(Commit::get_hash, (&c1,), r1),
        call_ensures(Commit::get_hash, (&c2,), r2),
    ensures
        r1@ == r2@,
{
}

} // verus!
