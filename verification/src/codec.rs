//! Canonical, platform-independent byte encoding of the object kinds.
//!
//! The encoding is the single source of truth for both content hashing and
//! the wire shape of objects: fixed field order for structs, a one-byte
//! discriminant before the payload of every tagged-union variant, 64-bit
//! little-endian length prefixes for variable-length fields, and identifiers
//! as 32 raw bytes.
//!
//! The encoding is injective on well-formed values: the spec decoders below
//! recover the encoded value exactly, so logically distinct objects always
//! produce distinct byte strings.

use vstd::prelude::*;
use vstd::bytes::*;
use vstd::slice::{slice_subrange, slice_to_vec};
use vstd::utf8::*;

use crate::ids::Id;
use crate::objects::{
    Commit, CommitSignature, CommitTimestamp, CommitView, File, MappingView, SignatureView,
    Symlink, TimestampView, Tree, TreeEntry, TreeEntryMapping, TreeEntryView, TreeView,
};

verus! {

/// Leading discriminant of an encoded file.
pub const FILE_TAG: u8 = 1;

/// Leading discriminant of an encoded symlink.
pub const SYMLINK_TAG: u8 = 2;

/// Leading discriminant of an encoded tree.
pub const TREE_TAG: u8 = 3;

/// Leading discriminant of an encoded commit.
pub const COMMIT_TAG: u8 = 4;

/// Number of bytes in an identifier.
pub const ID_LEN: usize = 32;

// ---------------------------------------------------------------------------
// Encoders (specification level)
// ---------------------------------------------------------------------------

pub open spec fn enc_u64(x: u64) -> Seq<u8> {
    spec_u64_to_le_bytes(x)
}

pub open spec fn enc_u32(x: u32) -> Seq<u8> {
    spec_u32_to_le_bytes(x)
}

pub open spec fn enc_bool(b: bool) -> Seq<u8> {
    if b {
        seq![1u8]
    } else {
        seq![0u8]
    }
}

/// A byte string, prefixed with its length.
pub open spec fn enc_bytes(b: Seq<u8>) -> Seq<u8> {
    enc_u64(b.len() as u64) + b
}

/// A string: its UTF-8 bytes, prefixed with their length.
pub open spec fn enc_str(s: Seq<char>) -> Seq<u8> {
    enc_bytes(encode_utf8(s))
}

/// Identifiers in order, each as its 32 raw bytes.
pub open spec fn concat_ids(ids: Seq<Seq<u8>>) -> Seq<u8>
    decreases ids.len(),
{
    if ids.len() == 0 {
        Seq::empty()
    } else {
        ids[0] + concat_ids(ids.drop_first())
    }
}

/// A list of identifiers, prefixed with its length.
pub open spec fn enc_id_list(ids: Seq<Seq<u8>>) -> Seq<u8> {
    enc_u64(ids.len() as u64) + concat_ids(ids)
}

pub open spec fn enc_entry(e: TreeEntryView) -> Seq<u8> {
    match e {
        TreeEntryView::File { id, executable } => seq![0u8] + id + enc_bool(executable),
        TreeEntryView::TreeId(id) => seq![1u8] + id,
        TreeEntryView::SymlinkId(id) => seq![2u8] + id,
        TreeEntryView::ConflictId(id) => seq![3u8] + id,
    }
}

pub open spec fn enc_mapping(m: MappingView) -> Seq<u8> {
    enc_str(m.name) + enc_entry(m.entry)
}

/// Tree entries in stored order: the hash covers the order as given.
pub open spec fn concat_mappings(ms: Seq<MappingView>) -> Seq<u8>
    decreases ms.len(),
{
    if ms.len() == 0 {
        Seq::empty()
    } else {
        enc_mapping(ms[0]) + concat_mappings(ms.drop_first())
    }
}

pub open spec fn enc_timestamp(t: TimestampView) -> Seq<u8> {
    enc_u64(t.millis_since_epoch as u64) + enc_u32(t.tz_offset as u32)
}

pub open spec fn enc_signature(s: SignatureView) -> Seq<u8> {
    enc_str(s.name) + enc_str(s.email) + enc_timestamp(s.timestamp)
}

pub open spec fn enc_opt_signature(o: Option<SignatureView>) -> Seq<u8> {
    match o {
        None => seq![0u8],
        Some(s) => seq![1u8] + enc_signature(s),
    }
}

/// Canonical encoding of a file.
pub open spec fn enc_file(content: Seq<u8>) -> Seq<u8> {
    seq![FILE_TAG] + enc_bytes(content)
}

/// Canonical encoding of a symlink.
pub open spec fn enc_symlink(target: Seq<char>) -> Seq<u8> {
    seq![SYMLINK_TAG] + enc_str(target)
}

/// Canonical encoding of a tree.
pub open spec fn enc_tree(t: TreeView) -> Seq<u8> {
    seq![TREE_TAG] + enc_u64(t.entries.len() as u64) + concat_mappings(t.entries)
}

/// Canonical encoding of a commit.
pub open spec fn enc_commit(c: CommitView) -> Seq<u8> {
    seq![COMMIT_TAG] + enc_id_list(c.parents) + enc_id_list(c.predecessors) + c.root_tree
        + enc_bool(c.uses_tree_conflict_format) + enc_bytes(c.change_id) + enc_str(c.description)
        + enc_opt_signature(c.author) + enc_opt_signature(c.committer)
}

// ---------------------------------------------------------------------------
// Well-formedness: the bounds under which the encoding is injective.
// Every value built from executable objects satisfies them.
// ---------------------------------------------------------------------------

pub open spec fn fits_u64(n: nat) -> bool {
    n <= u64::MAX
}

pub open spec fn wf_file(content: Seq<u8>) -> bool {
    fits_u64(content.len())
}

pub open spec fn wf_str(s: Seq<char>) -> bool {
    fits_u64(encode_utf8(s).len())
}

pub open spec fn wf_symlink(target: Seq<char>) -> bool {
    wf_str(target)
}

pub open spec fn wf_id(id: Seq<u8>) -> bool {
    id.len() == ID_LEN
}

pub open spec fn wf_id_list(ids: Seq<Seq<u8>>) -> bool {
    &&& fits_u64(ids.len())
    &&& forall|i: int| 0 <= i < ids.len() ==> wf_id(#[trigger] ids[i])
}

pub open spec fn wf_entry(e: TreeEntryView) -> bool {
    match e {
        TreeEntryView::File { id, executable } => wf_id(id),
        TreeEntryView::TreeId(id) => wf_id(id),
        TreeEntryView::SymlinkId(id) => wf_id(id),
        TreeEntryView::ConflictId(id) => wf_id(id),
    }
}

pub open spec fn wf_mapping(m: MappingView) -> bool {
    wf_str(m.name) && wf_entry(m.entry)
}

pub open spec fn wf_tree(t: TreeView) -> bool {
    &&& fits_u64(t.entries.len())
    &&& forall|i: int| 0 <= i < t.entries.len() ==> wf_mapping(#[trigger] t.entries[i])
}

pub open spec fn wf_signature(s: SignatureView) -> bool {
    wf_str(s.name) && wf_str(s.email)
}

pub open spec fn wf_opt_signature(o: Option<SignatureView>) -> bool {
    match o {
        None => true,
        Some(s) => wf_signature(s),
    }
}

pub open spec fn wf_commit(c: CommitView) -> bool {
    &&& wf_id_list(c.parents)
    &&& wf_id_list(c.predecessors)
    &&& wf_id(c.root_tree)
    &&& fits_u64(c.change_id.len())
    &&& wf_str(c.description)
    &&& wf_opt_signature(c.author)
    &&& wf_opt_signature(c.committer)
}

// ---------------------------------------------------------------------------
// Decoders (specification level)
//
// Each decoder reads a prefix of the byte sequence and returns the decoded
// value together with how many bytes it consumed, or `None` when no
// well-formed encoding starts the sequence.
// ---------------------------------------------------------------------------

pub open spec fn dec_u64(s: Seq<u8>) -> Option<(u64, int)> {
    if s.len() >= 8 {
        Some((spec_u64_from_le_bytes(s.take(8)), 8int))
    } else {
        None
    }
}

pub open spec fn dec_u32(s: Seq<u8>) -> Option<(u32, int)> {
    if s.len() >= 4 {
        Some((spec_u32_from_le_bytes(s.take(4)), 4int))
    } else {
        None
    }
}

pub open spec fn dec_byte(s: Seq<u8>) -> Option<(u8, int)> {
    if s.len() >= 1 {
        Some((s[0], 1int))
    } else {
        None
    }
}

pub open spec fn dec_bool(s: Seq<u8>) -> Option<(bool, int)> {
    if s.len() >= 1 && s[0] == 0u8 {
        Some((false, 1int))
    } else if s.len() >= 1 && s[0] == 1u8 {
        Some((true, 1int))
    } else {
        None
    }
}

pub open spec fn dec_bytes(s: Seq<u8>) -> Option<(Seq<u8>, int)> {
    match dec_u64(s) {
        Some((n, _)) => if n <= s.len() - 8 {
            Some((s.subrange(8, 8 + n as int), 8 + n as int))
        } else {
            None
        },
        None => None,
    }
}

pub open spec fn dec_str(s: Seq<u8>) -> Option<(Seq<char>, int)> {
    match dec_bytes(s) {
        Some((b, k)) => if valid_utf8(b) {
            Some((decode_utf8(b), k))
        } else {
            None
        },
        None => None,
    }
}

pub open spec fn dec_id(s: Seq<u8>) -> Option<(Seq<u8>, int)> {
    if s.len() >= ID_LEN {
        Some((s.take(ID_LEN as int), ID_LEN as int))
    } else {
        None
    }
}

pub open spec fn dec_ids(s: Seq<u8>, n: nat) -> Option<(Seq<Seq<u8>>, int)>
    decreases n,
{
    if n == 0 {
        Some((Seq::empty(), 0int))
    } else {
        match dec_id(s) {
            Some((id, k)) => match dec_ids(s.skip(k), (n - 1) as nat) {
                Some((rest, m)) => Some((seq![id] + rest, k + m)),
                None => None,
            },
            None => None,
        }
    }
}

pub open spec fn dec_id_list(s: Seq<u8>) -> Option<(Seq<Seq<u8>>, int)> {
    match dec_u64(s) {
        Some((n, k)) => match dec_ids(s.skip(k), n as nat) {
            Some((ids, m)) => Some((ids, k + m)),
            None => None,
        },
        None => None,
    }
}

pub open spec fn dec_entry(s: Seq<u8>) -> Option<(TreeEntryView, int)> {
    match dec_byte(s) {
        Some((tag, k)) => if tag == 0u8 {
            match dec_id(s.skip(k)) {
                Some((id, k2)) => match dec_bool(s.skip(k + k2)) {
                    Some((executable, k3)) => Some(
                        (TreeEntryView::File { id, executable }, k + k2 + k3),
                    ),
                    None => None,
                },
                None => None,
            }
        } else if tag == 1u8 {
            match dec_id(s.skip(k)) {
                Some((id, k2)) => Some((TreeEntryView::TreeId(id), k + k2)),
                None => None,
            }
        } else if tag == 2u8 {
            match dec_id(s.skip(k)) {
                Some((id, k2)) => Some((TreeEntryView::SymlinkId(id), k + k2)),
                None => None,
            }
        } else if tag == 3u8 {
            match dec_id(s.skip(k)) {
                Some((id, k2)) => Some((TreeEntryView::ConflictId(id), k + k2)),
                None => None,
            }
        } else {
            None
        },
        None => None,
    }
}

pub open spec fn dec_mapping(s: Seq<u8>) -> Option<(MappingView, int)> {
    match dec_str(s) {
        Some((name, k)) => match dec_entry(s.skip(k)) {
            Some((entry, k2)) => Some((MappingView { name, entry }, k + k2)),
            None => None,
        },
        None => None,
    }
}

pub open spec fn dec_mappings(s: Seq<u8>, n: nat) -> Option<(Seq<MappingView>, int)>
    decreases n,
{
    if n == 0 {
        Some((Seq::empty(), 0int))
    } else {
        match dec_mapping(s) {
            Some((m, k)) => match dec_mappings(s.skip(k), (n - 1) as nat) {
                Some((rest, k2)) => Some((seq![m] + rest, k + k2)),
                None => None,
            },
            None => None,
        }
    }
}

pub open spec fn dec_timestamp(s: Seq<u8>) -> Option<(TimestampView, int)> {
    match dec_u64(s) {
        Some((millis, k)) => match dec_u32(s.skip(k)) {
            Some((tz, k2)) => Some(
                (
                    TimestampView {
                        millis_since_epoch: millis as i64,
                        tz_offset: tz as i32,
                    },
                    k + k2,
                ),
            ),
            None => None,
        },
        None => None,
    }
}

pub open spec fn dec_signature(s: Seq<u8>) -> Option<(SignatureView, int)> {
    match dec_str(s) {
        Some((name, k)) => match dec_str(s.skip(k)) {
            Some((email, k2)) => match dec_timestamp(s.skip(k + k2)) {
                Some((timestamp, k3)) => Some(
                    (SignatureView { name, email, timestamp }, k + k2 + k3),
                ),
                None => None,
            },
            None => None,
        },
        None => None,
    }
}

pub open spec fn dec_opt_signature(s: Seq<u8>) -> Option<(Option<SignatureView>, int)> {
    match dec_byte(s) {
        Some((tag, k)) => if tag == 0u8 {
            Some((None, k))
        } else if tag == 1u8 {
            match dec_signature(s.skip(k)) {
                Some((sig, k2)) => Some((Some(sig), k + k2)),
                None => None,
            }
        } else {
            None
        },
        None => None,
    }
}

pub open spec fn dec_file(s: Seq<u8>) -> Option<(Seq<u8>, int)> {
    match dec_byte(s) {
        Some((tag, k)) => if tag == FILE_TAG {
            match dec_bytes(s.skip(k)) {
                Some((content, k2)) => Some((content, k + k2)),
                None => None,
            }
        } else {
            None
        },
        None => None,
    }
}

pub open spec fn dec_symlink(s: Seq<u8>) -> Option<(Seq<char>, int)> {
    match dec_byte(s) {
        Some((tag, k)) => if tag == SYMLINK_TAG {
            match dec_str(s.skip(k)) {
                Some((target, k2)) => Some((target, k + k2)),
                None => None,
            }
        } else {
            None
        },
        None => None,
    }
}

pub open spec fn dec_tree(s: Seq<u8>) -> Option<(TreeView, int)> {
    match dec_byte(s) {
        Some((tag, k)) => if tag == TREE_TAG {
            match dec_u64(s.skip(k)) {
                Some((n, k2)) => match dec_mappings(s.skip(k + k2), n as nat) {
                    Some((entries, k3)) => Some((TreeView { entries }, k + k2 + k3)),
                    None => None,
                },
                None => None,
            }
        } else {
            None
        },
        None => None,
    }
}

pub open spec fn dec_commit(s: Seq<u8>) -> Option<(CommitView, int)> {
    match dec_byte(s) {
        Some((tag, k0)) => if tag == COMMIT_TAG {
            match dec_id_list(s.skip(k0)) {
                Some((parents, k1)) => match dec_id_list(s.skip(k0 + k1)) {
                    Some((predecessors, k2)) => match dec_id(s.skip(k0 + k1 + k2)) {
                        Some((root_tree, k3)) => match dec_bool(s.skip(k0 + k1 + k2 + k3)) {
                            Some((utcf, k4)) => match dec_bytes(s.skip(k0 + k1 + k2 + k3 + k4)) {
                                Some((change_id, k5)) => match dec_str(
                                    s.skip(k0 + k1 + k2 + k3 + k4 + k5),
                                ) {
                                    Some((description, k6)) => match dec_opt_signature(
                                        s.skip(k0 + k1 + k2 + k3 + k4 + k5 + k6),
                                    ) {
                                        Some((author, k7)) => match dec_opt_signature(
                                            s.skip(k0 + k1 + k2 + k3 + k4 + k5 + k6 + k7),
                                        ) {
                                            Some((committer, k8)) => Some(
                                                (
                                                    CommitView {
                                                        parents,
                                                        predecessors,
                                                        root_tree,
                                                        uses_tree_conflict_format: utcf,
                                                        change_id,
                                                        description,
                                                        author,
                                                        committer,
                                                    },
                                                    k0 + k1 + k2 + k3 + k4 + k5 + k6 + k7 + k8,
                                                ),
                                            ),
                                            None => None,
                                        },
                                        None => None,
                                    },
                                    None => None,
                                },
                                None => None,
                            },
                            None => None,
                        },
                        None => None,
                    },
                    None => None,
                },
                None => None,
            }
        } else {
            None
        },
        None => None,
    }
}

// ---------------------------------------------------------------------------
// Round trip: each decoder recovers exactly what the encoder produced,
// whatever bytes follow. Injectivity of the encoding is a direct consequence.
// ---------------------------------------------------------------------------

pub proof fn lemma_dec_u64(x: u64, rest: Seq<u8>)
    ensures
        dec_u64(enc_u64(x) + rest) == Some((x, 8int)),
        enc_u64(x).len() == 8,
{
    lemma_auto_spec_u64_to_from_le_bytes();
    assert((enc_u64(x) + rest).take(8) =~= enc_u64(x));
}

pub proof fn lemma_dec_u32(x: u32, rest: Seq<u8>)
    ensures
        dec_u32(enc_u32(x) + rest) == Some((x, 4int)),
        enc_u32(x).len() == 4,
{
    lemma_auto_spec_u32_to_from_le_bytes();
    assert((enc_u32(x) + rest).take(4) =~= enc_u32(x));
}

pub proof fn lemma_dec_bool(b: bool, rest: Seq<u8>)
    ensures
        dec_bool(enc_bool(b) + rest) == Some((b, 1int)),
        enc_bool(b).len() == 1,
{
    assert((enc_bool(b) + rest)[0] == enc_bool(b)[0]);
}

pub proof fn lemma_dec_bytes(b: Seq<u8>, rest: Seq<u8>)
    requires
        fits_u64(b.len()),
    ensures
        dec_bytes(enc_bytes(b) + rest) == Some((b, enc_bytes(b).len() as int)),
        enc_bytes(b).len() == 8 + b.len(),
{
    let s = enc_bytes(b) + rest;
    assert(s =~= enc_u64(b.len() as u64) + (b + rest));
    lemma_dec_u64(b.len() as u64, b + rest);
    assert(s.subrange(8, 8 + b.len() as int) =~= b);
}

pub proof fn lemma_dec_str(t: Seq<char>, rest: Seq<u8>)
    requires
        wf_str(t),
    ensures
        dec_str(enc_str(t) + rest) == Some((t, enc_str(t).len() as int)),
        enc_str(t).len() == 8 + encode_utf8(t).len(),
{
    encode_utf8_valid_utf8(t);
    encode_utf8_decode_utf8(t);
    lemma_dec_bytes(encode_utf8(t), rest);
}

pub proof fn lemma_dec_id(id: Seq<u8>, rest: Seq<u8>)
    requires
        wf_id(id),
    ensures
        dec_id(id + rest) == Some((id, ID_LEN as int)),
{
    assert((id + rest).take(ID_LEN as int) =~= id);
}

pub proof fn lemma_dec_ids(ids: Seq<Seq<u8>>, rest: Seq<u8>)
    requires
        forall|i: int| 0 <= i < ids.len() ==> wf_id(#[trigger] ids[i]),
    ensures
        dec_ids(concat_ids(ids) + rest, ids.len() as nat)
            == Some((ids, concat_ids(ids).len() as int)),
    decreases ids.len(),
{
    if ids.len() == 0 {
        assert(concat_ids(ids) + rest =~= rest);
        assert(ids =~= Seq::<Seq<u8>>::empty());
    } else {
        let s = concat_ids(ids) + rest;
        let tail = concat_ids(ids.drop_first()) + rest;
        assert(s =~= ids[0] + tail);
        lemma_dec_id(ids[0], tail);
        assert(s.skip(ID_LEN as int) =~= tail);
        lemma_dec_ids(ids.drop_first(), rest);
        assert(seq![ids[0]] + ids.drop_first() =~= ids);
    }
}

pub proof fn lemma_dec_id_list(ids: Seq<Seq<u8>>, rest: Seq<u8>)
    requires
        wf_id_list(ids),
    ensures
        dec_id_list(enc_id_list(ids) + rest) == Some((ids, enc_id_list(ids).len() as int)),
        enc_id_list(ids).len() == 8 + concat_ids(ids).len(),
{
    let s = enc_id_list(ids) + rest;
    assert(s =~= enc_u64(ids.len() as u64) + (concat_ids(ids) + rest));
    lemma_dec_u64(ids.len() as u64, concat_ids(ids) + rest);
    assert(s.skip(8) =~= concat_ids(ids) + rest);
    lemma_dec_ids(ids, rest);
}

pub proof fn lemma_dec_entry(e: TreeEntryView, rest: Seq<u8>)
    requires
        wf_entry(e),
    ensures
        dec_entry(enc_entry(e) + rest) == Some((e, enc_entry(e).len() as int)),
{
    let s = enc_entry(e) + rest;
    match e {
        TreeEntryView::File { id, executable } => {
            let tail = id + (enc_bool(executable) + rest);
            assert(s =~= seq![0u8] + tail);
            assert(s[0] == 0u8);
            assert(s.skip(1) =~= tail);
            lemma_dec_id(id, enc_bool(executable) + rest);
            assert(s.skip(1).skip(ID_LEN as int) =~= enc_bool(executable) + rest);
            assert(s.skip(1 + ID_LEN as int) =~= enc_bool(executable) + rest);
            lemma_dec_bool(executable, rest);
        },
        TreeEntryView::TreeId(id) => {
            assert(s =~= seq![1u8] + (id + rest));
            assert(s[0] == 1u8);
            assert(s.skip(1) =~= id + rest);
            lemma_dec_id(id, rest);
        },
        TreeEntryView::SymlinkId(id) => {
            assert(s =~= seq![2u8] + (id + rest));
            assert(s[0] == 2u8);
            assert(s.skip(1) =~= id + rest);
            lemma_dec_id(id, rest);
        },
        TreeEntryView::ConflictId(id) => {
            assert(s =~= seq![3u8] + (id + rest));
            assert(s[0] == 3u8);
            assert(s.skip(1) =~= id + rest);
            lemma_dec_id(id, rest);
        },
    }
}

pub proof fn lemma_dec_mapping(m: MappingView, rest: Seq<u8>)
    requires
        wf_mapping(m),
    ensures
        dec_mapping(enc_mapping(m) + rest) == Some((m, enc_mapping(m).len() as int)),
{
    let s = enc_mapping(m) + rest;
    assert(s =~= enc_str(m.name) + (enc_entry(m.entry) + rest));
    lemma_dec_str(m.name, enc_entry(m.entry) + rest);
    assert(s.skip(enc_str(m.name).len() as int) =~= enc_entry(m.entry) + rest);
    lemma_dec_entry(m.entry, rest);
}

pub proof fn lemma_dec_mappings(ms: Seq<MappingView>, rest: Seq<u8>)
    requires
        forall|i: int| 0 <= i < ms.len() ==> wf_mapping(#[trigger] ms[i]),
    ensures
        dec_mappings(concat_mappings(ms) + rest, ms.len() as nat)
            == Some((ms, concat_mappings(ms).len() as int)),
    decreases ms.len(),
{
    if ms.len() == 0 {
        assert(concat_mappings(ms) + rest =~= rest);
        assert(ms =~= Seq::<MappingView>::empty());
    } else {
        let s = concat_mappings(ms) + rest;
        let tail = concat_mappings(ms.drop_first()) + rest;
        assert(s =~= enc_mapping(ms[0]) + tail);
        lemma_dec_mapping(ms[0], tail);
        assert(s.skip(enc_mapping(ms[0]).len() as int) =~= tail);
        lemma_dec_mappings(ms.drop_first(), rest);
        assert(seq![ms[0]] + ms.drop_first() =~= ms);
    }
}

pub proof fn lemma_dec_timestamp(t: TimestampView, rest: Seq<u8>)
    ensures
        dec_timestamp(enc_timestamp(t) + rest) == Some((t, enc_timestamp(t).len() as int)),
        enc_timestamp(t).len() == 12,
{
    let s = enc_timestamp(t) + rest;
    assert(s =~= enc_u64(t.millis_since_epoch as u64) + (enc_u32(t.tz_offset as u32) + rest));
    lemma_dec_u64(t.millis_since_epoch as u64, enc_u32(t.tz_offset as u32) + rest);
    assert(s.skip(8) =~= enc_u32(t.tz_offset as u32) + rest);
    lemma_dec_u32(t.tz_offset as u32, rest);
    let millis = t.millis_since_epoch;
    let tz = t.tz_offset;
    assert((millis as u64) as i64 == millis) by (bit_vector);
    assert((tz as u32) as i32 == tz) by (bit_vector);
}

pub proof fn lemma_dec_signature(sig: SignatureView, rest: Seq<u8>)
    requires
        wf_signature(sig),
    ensures
        dec_signature(enc_signature(sig) + rest) == Some((sig, enc_signature(sig).len() as int)),
{
    let s = enc_signature(sig) + rest;
    let n1 = enc_str(sig.name).len() as int;
    let n2 = enc_str(sig.email).len() as int;
    assert(s =~= enc_str(sig.name) + (enc_str(sig.email) + (enc_timestamp(sig.timestamp) + rest)));
    lemma_dec_str(sig.name, enc_str(sig.email) + (enc_timestamp(sig.timestamp) + rest));
    assert(s.skip(n1) =~= enc_str(sig.email) + (enc_timestamp(sig.timestamp) + rest));
    lemma_dec_str(sig.email, enc_timestamp(sig.timestamp) + rest);
    assert(s.skip(n1 + n2) =~= enc_timestamp(sig.timestamp) + rest);
    lemma_dec_timestamp(sig.timestamp, rest);
}

pub proof fn lemma_dec_opt_signature(o: Option<SignatureView>, rest: Seq<u8>)
    requires
        wf_opt_signature(o),
    ensures
        dec_opt_signature(enc_opt_signature(o) + rest)
            == Some((o, enc_opt_signature(o).len() as int)),
{
    let s = enc_opt_signature(o) + rest;
    match o {
        None => {
            assert(s[0] == 0u8);
        },
        Some(sig) => {
            assert(s =~= seq![1u8] + (enc_signature(sig) + rest));
            assert(s[0] == 1u8);
            assert(s.skip(1) =~= enc_signature(sig) + rest);
            lemma_dec_signature(sig, rest);
        },
    }
}

pub proof fn lemma_dec_file(content: Seq<u8>, rest: Seq<u8>)
    requires
        wf_file(content),
    ensures
        dec_file(enc_file(content) + rest) == Some((content, enc_file(content).len() as int)),
{
    let s = enc_file(content) + rest;
    assert(s =~= seq![FILE_TAG] + (enc_bytes(content) + rest));
    assert(s[0] == FILE_TAG);
    assert(s.skip(1) =~= enc_bytes(content) + rest);
    lemma_dec_bytes(content, rest);
}

pub proof fn lemma_dec_symlink(target: Seq<char>, rest: Seq<u8>)
    requires
        wf_symlink(target),
    ensures
        dec_symlink(enc_symlink(target) + rest)
            == Some((target, enc_symlink(target).len() as int)),
{
    let s = enc_symlink(target) + rest;
    assert(s =~= seq![SYMLINK_TAG] + (enc_str(target) + rest));
    assert(s[0] == SYMLINK_TAG);
    assert(s.skip(1) =~= enc_str(target) + rest);
    lemma_dec_str(target, rest);
}

pub proof fn lemma_dec_tree(t: TreeView, rest: Seq<u8>)
    requires
        wf_tree(t),
    ensures
        dec_tree(enc_tree(t) + rest) == Some((t, enc_tree(t).len() as int)),
{
    let s = enc_tree(t) + rest;
    let body = concat_mappings(t.entries) + rest;
    assert(s =~= seq![TREE_TAG] + (enc_u64(t.entries.len() as u64) + body));
    assert(s[0] == TREE_TAG);
    assert(s.skip(1) =~= enc_u64(t.entries.len() as u64) + body);
    lemma_dec_u64(t.entries.len() as u64, body);
    assert(s.skip(1).skip(8) =~= body);
    assert(s.skip(9) =~= body);
    lemma_dec_mappings(t.entries, rest);
}

#[verifier::rlimit(100)]
pub proof fn lemma_dec_commit(c: CommitView, rest: Seq<u8>)
    requires
        wf_commit(c),
    ensures
        dec_commit(enc_commit(c) + rest) == Some((c, enc_commit(c).len() as int)),
{
    let p1 = enc_id_list(c.parents);
    let p2 = enc_id_list(c.predecessors);
    let p3 = c.root_tree;
    let p4 = enc_bool(c.uses_tree_conflict_format);
    let p5 = enc_bytes(c.change_id);
    let p6 = enc_str(c.description);
    let p7 = enc_opt_signature(c.author);
    let p8 = enc_opt_signature(c.committer);
    let s = enc_commit(c) + rest;
    let r8 = p8 + rest;
    let r7 = p7 + r8;
    let r6 = p6 + r7;
    let r5 = p5 + r6;
    let r4 = p4 + r5;
    let r3 = p3 + r4;
    let r2 = p2 + r3;
    let r1 = p1 + r2;
    assert(s =~= seq![COMMIT_TAG] + r1);
    assert(s[0] == COMMIT_TAG);
    assert(s.skip(1) =~= r1);
    lemma_dec_id_list(c.parents, r2);
    assert(r1.skip(p1.len() as int) =~= r2);
    lemma_dec_id_list(c.predecessors, r3);
    assert(r2.skip(p2.len() as int) =~= r3);
    lemma_dec_id(c.root_tree, r4);
    assert(r3.skip(p3.len() as int) =~= r4);
    lemma_dec_bool(c.uses_tree_conflict_format, r5);
    assert(r4.skip(p4.len() as int) =~= r5);
    lemma_dec_bytes(c.change_id, r6);
    assert(r5.skip(p5.len() as int) =~= r6);
    lemma_dec_str(c.description, r7);
    assert(r6.skip(p6.len() as int) =~= r7);
    lemma_dec_opt_signature(c.author, r8);
    assert(r7.skip(p7.len() as int) =~= r8);
    lemma_dec_opt_signature(c.committer, rest);
    let k1 = p1.len() as int;
    let k2 = p2.len() as int;
    let k3 = p3.len() as int;
    let k4 = p4.len() as int;
    let k5 = p5.len() as int;
    let k6 = p6.len() as int;
    let k7 = p7.len() as int;
    assert(s.skip(1).skip(k1) =~= r2);
    assert(s.skip(1 + k1) =~= r2);
    assert(s.skip(1 + k1 + k2) =~= r3);
    assert(s.skip(1 + k1 + k2 + k3) =~= r4);
    assert(s.skip(1 + k1 + k2 + k3 + k4) =~= r5);
    assert(s.skip(1 + k1 + k2 + k3 + k4 + k5) =~= r6);
    assert(s.skip(1 + k1 + k2 + k3 + k4 + k5 + k6) =~= r7);
    assert(s.skip(1 + k1 + k2 + k3 + k4 + k5 + k6 + k7) =~= r8);
}

// ---------------------------------------------------------------------------
// Separation: distinct well-formed values give distinct encodings, within a
// kind and across kinds. Together with the hash these are the content-address
// guarantee: distinct objects never share a hash input; separation of the
// 256-bit identifiers themselves rests on the digest's collision resistance.
// ---------------------------------------------------------------------------

/// Law: distinct file contents have distinct canonical encodings.
pub proof fn lemma_file_encoding_separates(c1: Seq<u8>, c2: Seq<u8>)
    requires
        wf_file(c1),
        wf_file(c2),
        c1 != c2,
    ensures
        enc_file(c1) != enc_file(c2),
{
    if enc_file(c1) == enc_file(c2) {
        lemma_dec_file(c1, Seq::empty());
        lemma_dec_file(c2, Seq::empty());
        assert(enc_file(c1) + Seq::<u8>::empty() =~= enc_file(c1));
        assert(enc_file(c2) + Seq::<u8>::empty() =~= enc_file(c2));
    }
}

/// Law: distinct symlink targets have distinct canonical encodings.
pub proof fn lemma_symlink_encoding_separates(t1: Seq<char>, t2: Seq<char>)
    requires
        wf_symlink(t1),
        wf_symlink(t2),
        t1 != t2,
    ensures
        enc_symlink(t1) != enc_symlink(t2),
{
    if enc_symlink(t1) == enc_symlink(t2) {
        lemma_dec_symlink(t1, Seq::empty());
        lemma_dec_symlink(t2, Seq::empty());
        assert(enc_symlink(t1) + Seq::<u8>::empty() =~= enc_symlink(t1));
        assert(enc_symlink(t2) + Seq::<u8>::empty() =~= enc_symlink(t2));
    }
}

/// Law: distinct trees have distinct canonical encodings; in particular a
/// tree with the same entries in another order encodes differently.
pub proof fn lemma_tree_encoding_separates(t1: TreeView, t2: TreeView)
    requires
        wf_tree(t1),
        wf_tree(t2),
        t1 != t2,
    ensures
        enc_tree(t1) != enc_tree(t2),
{
    if enc_tree(t1) == enc_tree(t2) {
        lemma_dec_tree(t1, Seq::empty());
        lemma_dec_tree(t2, Seq::empty());
        assert(enc_tree(t1) + Seq::<u8>::empty() =~= enc_tree(t1));
        assert(enc_tree(t2) + Seq::<u8>::empty() =~= enc_tree(t2));
    }
}

/// Law: distinct commits have distinct canonical encodings.
pub proof fn lemma_commit_encoding_separates(c1: CommitView, c2: CommitView)
    requires
        wf_commit(c1),
        wf_commit(c2),
        c1 != c2,
    ensures
        enc_commit(c1) != enc_commit(c2),
{
    if enc_commit(c1) == enc_commit(c2) {
        lemma_dec_commit(c1, Seq::empty());
        lemma_dec_commit(c2, Seq::empty());
        assert(enc_commit(c1) + Seq::<u8>::empty() =~= enc_commit(c1));
        assert(enc_commit(c2) + Seq::<u8>::empty() =~= enc_commit(c2));
    }
}

/// Law: the four object kinds occupy disjoint encoding spaces: each encoding
/// opens with its kind's discriminant byte.
pub proof fn lemma_kind_encodings_separate(
    content: Seq<u8>,
    target: Seq<char>,
    t: TreeView,
    c: CommitView,
)
    ensures
        enc_file(content) != enc_symlink(target),
        enc_file(content) != enc_tree(t),
        enc_file(content) != enc_commit(c),
        enc_symlink(target) != enc_tree(t),
        enc_symlink(target) != enc_commit(c),
        enc_tree(t) != enc_commit(c),
{
    assert(enc_file(content)[0] == FILE_TAG);
    assert(enc_symlink(target)[0] == SYMLINK_TAG);
    assert(enc_tree(t)[0] == TREE_TAG);
    assert(enc_commit(c)[0] == COMMIT_TAG);
}

// ---------------------------------------------------------------------------
// Encoders (executable)
// ---------------------------------------------------------------------------

proof fn lemma_concat_ids_snoc(ids: Seq<Seq<u8>>, id: Seq<u8>)
    ensures
        concat_ids(ids.push(id)) == concat_ids(ids) + id,
    decreases ids.len(),
{
    let l = ids.push(id);
    if ids.len() == 0 {
        assert(l.drop_first() =~= Seq::<Seq<u8>>::empty());
        assert(concat_ids(l) == l[0] + concat_ids(l.drop_first()));
        assert(concat_ids(l) =~= concat_ids(ids) + id);
    } else {
        assert(l[0] == ids[0]);
        assert(l.drop_first() =~= ids.drop_first().push(id));
        lemma_concat_ids_snoc(ids.drop_first(), id);
        assert(concat_ids(l) == l[0] + concat_ids(l.drop_first()));
        assert(concat_ids(ids) == ids[0] + concat_ids(ids.drop_first()));
        assert(concat_ids(l) =~= concat_ids(ids) + id);
    }
}

proof fn lemma_concat_mappings_snoc(ms: Seq<MappingView>, m: MappingView)
    ensures
        concat_mappings(ms.push(m)) == concat_mappings(ms) + enc_mapping(m),
    decreases ms.len(),
{
    let l = ms.push(m);
    if ms.len() == 0 {
        assert(l.drop_first() =~= Seq::<MappingView>::empty());
        assert(concat_mappings(l) == enc_mapping(l[0]) + concat_mappings(l.drop_first()));
        assert(concat_mappings(l) =~= concat_mappings(ms) + enc_mapping(m));
    } else {
        assert(l[0] == ms[0]);
        assert(l.drop_first() =~= ms.drop_first().push(m));
        lemma_concat_mappings_snoc(ms.drop_first(), m);
        assert(concat_mappings(l) == enc_mapping(l[0]) + concat_mappings(l.drop_first()));
        assert(concat_mappings(ms) == enc_mapping(ms[0]) + concat_mappings(ms.drop_first()));
        assert(concat_mappings(l) =~= concat_mappings(ms) + enc_mapping(m));
    }
}

/// Append every byte of `src` to `dst`.
fn append_bytes(dst: &mut Vec<u8>, src: &[u8])
    ensures
        final(dst)@ == old(dst)@ + src@,
{
    let mut i: usize = 0;
    while i < src.len()
        invariant
            i <= src@.len(),
            dst@ == old(dst)@ + src@.take(i as int),
        decreases src@.len() - i,
    {
        dst.push(src[i]);
        proof {
            assert(old(dst)@ + src@.take(i + 1 as int)
                =~= (old(dst)@ + src@.take(i as int)).push(src@[i as int]));
        }
        i += 1;
    }
    proof {
        assert(src@.take(src@.len() as int) =~= src@);
    }
}

fn append_u64(dst: &mut Vec<u8>, x: u64)
    ensures
        final(dst)@ == old(dst)@ + enc_u64(x),
{
    let b = u64_to_le_bytes(x);
    append_bytes(dst, b.as_slice());
}

fn append_u32(dst: &mut Vec<u8>, x: u32)
    ensures
        final(dst)@ == old(dst)@ + enc_u32(x),
{
    let b = u32_to_le_bytes(x);
    append_bytes(dst, b.as_slice());
}

fn append_str(dst: &mut Vec<u8>, s: &String)
    ensures
        final(dst)@ == old(dst)@ + enc_str(s@),
{
    let bytes = s.as_str().as_bytes();
    append_u64(dst, bytes.len() as u64);
    append_bytes(dst, bytes);
    proof {
        assert(dst@ =~= old(dst)@ + enc_str(s@));
    }
}

fn append_id(dst: &mut Vec<u8>, id: &Id)
    ensures
        final(dst)@ == old(dst)@ + id@,
{
    append_bytes(dst, id.0.as_slice());
}

fn append_id_list(dst: &mut Vec<u8>, ids: &Vec<Id>)
    ensures
        final(dst)@ == old(dst)@ + enc_id_list(ids@.map_values(|p: Id| p@)),
{
    let ghost m = ids@.map_values(|p: Id| p@);
    append_u64(dst, ids.len() as u64);
    let mut i: usize = 0;
    while i < ids.len()
        invariant
            i <= ids.len(),
            m == ids@.map_values(|p: Id| p@),
            m.len() == ids@.len(),
            dst@ == old(dst)@ + enc_u64(ids@.len() as u64) + concat_ids(m.take(i as int)),
        decreases ids.len() - i,
    {
        append_id(dst, &ids[i]);
        proof {
            lemma_concat_ids_snoc(m.take(i as int), m[i as int]);
            assert(m.take(i + 1 as int) =~= m.take(i as int).push(m[i as int]));
            assert(dst@ =~= old(dst)@ + enc_u64(ids@.len() as u64) + concat_ids(
                m.take(i + 1 as int),
            ));
        }
        i += 1;
    }
    proof {
        assert(m.take(m.len() as int) =~= m);
        assert(dst@ =~= old(dst)@ + enc_id_list(m));
    }
}

fn append_timestamp(dst: &mut Vec<u8>, t: &CommitTimestamp)
    ensures
        final(dst)@ == old(dst)@ + enc_timestamp(t@),
{
    append_u64(dst, #[verifier::truncate] (t.millis_since_epoch as u64));
    append_u32(dst, #[verifier::truncate] (t.tz_offset as u32));
    proof {
        assert(dst@ =~= old(dst)@ + enc_timestamp(t@));
    }
}

fn append_signature(dst: &mut Vec<u8>, s: &CommitSignature)
    ensures
        final(dst)@ == old(dst)@ + enc_signature(s@),
{
    append_str(dst, &s.name);
    append_str(dst, &s.email);
    append_timestamp(dst, &s.timestamp);
    proof {
        assert(dst@ =~= old(dst)@ + enc_signature(s@));
    }
}

fn append_opt_signature(dst: &mut Vec<u8>, o: &Option<CommitSignature>)
    ensures
        final(dst)@ == old(dst)@ + enc_opt_signature(match o {
            Some(s) => Some(s@),
            None => None,
        }),
{
    match o {
        None => {
            dst.push(0u8);
            proof {
                assert(dst@ =~= old(dst)@ + seq![0u8]);
            }
        },
        Some(s) => {
            dst.push(1u8);
            append_signature(dst, s);
            proof {
                assert(dst@ =~= old(dst)@ + (seq![1u8] + enc_signature(s@)));
            }
        },
    }
}

fn append_entry(dst: &mut Vec<u8>, e: &TreeEntry)
    ensures
        final(dst)@ == old(dst)@ + enc_entry(e@),
{
    match e {
        TreeEntry::File { id, executable } => {
            dst.push(0u8);
            append_id(dst, id);
            dst.push(if *executable { 1u8 } else { 0u8 });
            proof {
                assert(dst@ =~= old(dst)@ + enc_entry(e@));
            }
        },
        TreeEntry::TreeId(id) => {
            dst.push(1u8);
            append_id(dst, id);
            proof {
                assert(dst@ =~= old(dst)@ + enc_entry(e@));
            }
        },
        TreeEntry::SymlinkId(id) => {
            dst.push(2u8);
            append_id(dst, id);
            proof {
                assert(dst@ =~= old(dst)@ + enc_entry(e@));
            }
        },
        TreeEntry::ConflictId(id) => {
            dst.push(3u8);
            append_id(dst, id);
            proof {
                assert(dst@ =~= old(dst)@ + enc_entry(e@));
            }
        },
    }
}

fn append_mapping(dst: &mut Vec<u8>, m: &TreeEntryMapping)
    ensures
        final(dst)@ == old(dst)@ + enc_mapping(m@),
{
    append_str(dst, &m.name);
    append_entry(dst, &m.entry);
    proof {
        assert(dst@ =~= old(dst)@ + enc_mapping(m@));
    }
}

/// Canonical byte encoding of a file: the hash input and wire shape.
pub fn encode_file(f: &File) -> (r: Vec<u8>)
    ensures
        r@ == enc_file(f@),
{
    let mut r: Vec<u8> = Vec::new();
    r.push(FILE_TAG);
    append_u64(&mut r, f.content.len() as u64);
    append_bytes(&mut r, f.content.as_slice());
    proof {
        assert(r@ =~= enc_file(f@));
    }
    r
}

/// Canonical byte encoding of a symlink.
pub fn encode_symlink(s: &Symlink) -> (r: Vec<u8>)
    ensures
        r@ == enc_symlink(s@),
{
    let mut r: Vec<u8> = Vec::new();
    r.push(SYMLINK_TAG);
    append_str(&mut r, &s.target);
    proof {
        assert(r@ =~= enc_symlink(s@));
    }
    r
}

/// Canonical byte encoding of a tree: covers the entries in stored order.
pub fn encode_tree(t: &Tree) -> (r: Vec<u8>)
    ensures
        r@ == enc_tree(t@),
{
    let ghost m = t.entries@.map_values(|e: TreeEntryMapping| e@);
    let mut r: Vec<u8> = Vec::new();
    r.push(TREE_TAG);
    append_u64(&mut r, t.entries.len() as u64);
    let mut i: usize = 0;
    while i < t.entries.len()
        invariant
            i <= t.entries.len(),
            m == t.entries@.map_values(|e: TreeEntryMapping| e@),
            m.len() == t.entries@.len(),
            r@ == seq![TREE_TAG] + enc_u64(t.entries@.len() as u64) + concat_mappings(
                m.take(i as int),
            ),
        decreases t.entries.len() - i,
    {
        append_mapping(&mut r, &t.entries[i]);
        proof {
            lemma_concat_mappings_snoc(m.take(i as int), m[i as int]);
            assert(m.take(i + 1 as int) =~= m.take(i as int).push(m[i as int]));
            assert(r@ =~= seq![TREE_TAG] + enc_u64(t.entries@.len() as u64) + concat_mappings(
                m.take(i + 1 as int),
            ));
        }
        i += 1;
    }
    proof {
        assert(m.take(m.len() as int) =~= m);
        assert(r@ =~= enc_tree(t@));
    }
    r
}

/// Canonical byte encoding of a commit.
pub fn encode_commit(c: &Commit) -> (r: Vec<u8>)
    ensures
        r@ == enc_commit(c@),
{
    let mut r: Vec<u8> = Vec::new();
    r.push(COMMIT_TAG);
    append_id_list(&mut r, &c.parents);
    append_id_list(&mut r, &c.predecessors);
    append_id(&mut r, &c.root_tree);
    r.push(if c.uses_tree_conflict_format { 1u8 } else { 0u8 });
    append_u64(&mut r, c.change_id.len() as u64);
    append_bytes(&mut r, c.change_id.as_slice());
    append_str(&mut r, &c.description);
    append_opt_signature(&mut r, &c.author);
    append_opt_signature(&mut r, &c.committer);
    proof {
        assert(r@ =~= enc_commit(c@));
    }
    r
}

// ---------------------------------------------------------------------------
// Decoders (executable)
//
// Each reads at a position in the byte string and agrees exactly with the
// matching spec decoder on the suffix there: the same value, the same
// consumption, and failure exactly where the spec decoder has none.
// ---------------------------------------------------------------------------

/// Error of the wire decoders: the bytes hold no well-formed encoding.
#[derive(Clone, Copy, Debug, PartialEq, Eq, Structural)]
pub enum DecodeError {
    Malformed,
}

/// Relies on core::str::from_utf8, which succeeds exactly on valid UTF-8 and
/// yields the decoded characters, and str::to_owned, which copies them.
#[verifier::external_body]
fn bytes_to_string(v: &[u8]) -> (r: Option<String>)
    ensures
        r is Some <==> valid_utf8(v@),
        r is Some ==> r.unwrap()@ == decode_utf8(v@),
{
    match core::str::from_utf8(v) {
        Ok(s) => Some(s.to_owned()),
        Err(_) => None,
    }
}

fn take_byte(s: &[u8], pos: usize) -> (r: Option<(u8, usize)>)
    requires
        pos <= s@.len(),
    ensures
        match r {
            Some((x, p)) => dec_byte(s@.skip(pos as int)) == Some((x, p - pos as int)) && pos < p
                <= s@.len(),
            None => dec_byte(s@.skip(pos as int)) is None,
        },
{
    if s.len() - pos >= 1 {
        Some((s[pos], pos + 1))
    } else {
        None
    }
}

fn take_bool(s: &[u8], pos: usize) -> (r: Option<(bool, usize)>)
    requires
        pos <= s@.len(),
    ensures
        match r {
            Some((b, p)) => dec_bool(s@.skip(pos as int)) == Some((b, p - pos as int)) && pos < p
                <= s@.len(),
            None => dec_bool(s@.skip(pos as int)) is None,
        },
{
    match take_byte(s, pos) {
        Some((x, p)) => if x == 0 {
            Some((false, p))
        } else if x == 1 {
            Some((true, p))
        } else {
            None
        },
        None => None,
    }
}

fn take_u64(s: &[u8], pos: usize) -> (r: Option<(u64, usize)>)
    requires
        pos <= s@.len(),
    ensures
        match r {
            Some((x, p)) => dec_u64(s@.skip(pos as int)) == Some((x, p - pos as int)) && pos < p
                <= s@.len(),
            None => dec_u64(s@.skip(pos as int)) is None,
        },
{
    if s.len() - pos >= 8 {
        let sub = slice_subrange(s, pos, pos + 8);
        proof {
            assert(sub@ =~= s@.skip(pos as int).take(8));
        }
        let x = u64_from_le_bytes(sub);
        Some((x, pos + 8))
    } else {
        None
    }
}

fn take_u32(s: &[u8], pos: usize) -> (r: Option<(u32, usize)>)
    requires
        pos <= s@.len(),
    ensures
        match r {
            Some((x, p)) => dec_u32(s@.skip(pos as int)) == Some((x, p - pos as int)) && pos < p
                <= s@.len(),
            None => dec_u32(s@.skip(pos as int)) is None,
        },
{
    if s.len() - pos >= 4 {
        let sub = slice_subrange(s, pos, pos + 4);
        proof {
            assert(sub@ =~= s@.skip(pos as int).take(4));
        }
        let x = u32_from_le_bytes(sub);
        Some((x, pos + 4))
    } else {
        None
    }
}

fn take_bytes(s: &[u8], pos: usize) -> (r: Option<(Vec<u8>, usize)>)
    requires
        pos <= s@.len(),
    ensures
        match r {
            Some((v, p)) => dec_bytes(s@.skip(pos as int)) == Some((v@, p - pos as int)) && pos < p
                <= s@.len(),
            None => dec_bytes(s@.skip(pos as int)) is None,
        },
{
    match take_u64(s, pos) {
        Some((n, p1)) => {
            if n <= (s.len() - p1) as u64 {
                let end = p1 + (n as usize);
                let v = slice_to_vec(slice_subrange(s, p1, end));
                proof {
                    assert(v@ =~= s@.skip(pos as int).subrange(8, 8 + n as int));
                }
                Some((v, end))
            } else {
                None
            }
        },
        None => None,
    }
}

fn take_str(s: &[u8], pos: usize) -> (r: Option<(String, usize)>)
    requires
        pos <= s@.len(),
    ensures
        match r {
            Some((t, p)) => dec_str(s@.skip(pos as int)) == Some((t@, p - pos as int)) && pos < p
                <= s@.len(),
            None => dec_str(s@.skip(pos as int)) is None,
        },
{
    match take_bytes(s, pos) {
        Some((v, p)) => match bytes_to_string(v.as_slice()) {
            Some(t) => Some((t, p)),
            None => None,
        },
        None => None,
    }
}

fn take_id(s: &[u8], pos: usize) -> (r: Option<(Id, usize)>)
    requires
        pos <= s@.len(),
    ensures
        match r {
            Some((id, p)) => dec_id(s@.skip(pos as int)) == Some((id@, p - pos as int)) && pos < p
                <= s@.len(),
            None => dec_id(s@.skip(pos as int)) is None,
        },
{
    if s.len() - pos >= 32 {
        let mut a = [0u8; 32];
        let mut j: usize = 0;
        while j < 32
            invariant
                j <= 32,
                pos + 32 <= s@.len(),
                s@.len() <= usize::MAX,
                forall|k: int| 0 <= k < j ==> a@[k] == s@[pos + k],
            decreases 32 - j,
        {
            a[j] = s[pos + j];
            j += 1;
        }
        proof {
            assert(a@ =~= s@.skip(pos as int).take(ID_LEN as int));
        }
        Some((Id(a), pos + 32))
    } else {
        None
    }
}

fn take_ids(s: &[u8], pos: usize, n: u64) -> (r: Option<(Vec<Id>, usize)>)
    requires
        pos <= s@.len(),
    ensures
        match r {
            Some((ids, p)) => dec_ids(s@.skip(pos as int), n as nat) == Some(
                (ids@.map_values(|i: Id| i@), p - pos as int),
            ) && pos <= p <= s@.len(),
            None => dec_ids(s@.skip(pos as int), n as nat) is None,
        },
    decreases n,
{
    if n == 0 {
        let ids: Vec<Id> = Vec::new();
        proof {
            assert(ids@.map_values(|i: Id| i@) =~= Seq::<Seq<u8>>::empty());
        }
        Some((ids, pos))
    } else {
        match take_id(s, pos) {
            Some((id, p1)) => {
                proof {
                    assert(s@.skip(pos as int).skip(ID_LEN as int) =~= s@.skip(p1 as int));
                }
                match take_ids(s, p1, n - 1) {
                    Some((mut ids, p2)) => {
                        ids.insert(0, id);
                        proof {
                            assert(ids@.map_values(|i: Id| i@) =~= seq![id@] + ids@.drop_first()
                                .map_values(|i: Id| i@));
                        }
                        Some((ids, p2))
                    },
                    None => None,
                }
            },
            None => None,
        }
    }
}

fn take_id_list(s: &[u8], pos: usize) -> (r: Option<(Vec<Id>, usize)>)
    requires
        pos <= s@.len(),
    ensures
        match r {
            Some((ids, p)) => dec_id_list(s@.skip(pos as int)) == Some(
                (ids@.map_values(|i: Id| i@), p - pos as int),
            ) && pos <= p <= s@.len(),
            None => dec_id_list(s@.skip(pos as int)) is None,
        },
{
    match take_u64(s, pos) {
        Some((n, p1)) => {
            proof {
                assert(s@.skip(pos as int).skip(8) =~= s@.skip(p1 as int));
            }
            match take_ids(s, p1, n) {
                Some((ids, p2)) => Some((ids, p2)),
                None => None,
            }
        },
        None => None,
    }
}

fn take_entry(s: &[u8], pos: usize) -> (r: Option<(TreeEntry, usize)>)
    requires
        pos <= s@.len(),
    ensures
        match r {
            Some((e, p)) => dec_entry(s@.skip(pos as int)) == Some((e@, p - pos as int)) && pos < p
                <= s@.len(),
            None => dec_entry(s@.skip(pos as int)) is None,
        },
{
    match take_byte(s, pos) {
        Some((tag, p1)) => {
            proof {
                assert(s@.skip(pos as int).skip(1) =~= s@.skip(p1 as int));
            }
            if tag == 0 {
                match take_id(s, p1) {
                    Some((id, p2)) => {
                        proof {
                            assert(s@.skip(p1 as int).skip(ID_LEN as int) =~= s@.skip(p2 as int));
                        }
                        match take_bool(s, p2) {
                            Some((executable, p3)) => Some(
                                (TreeEntry::File { id, executable }, p3),
                            ),
                            None => None,
                        }
                    },
                    None => None,
                }
            } else if tag == 1 {
                match take_id(s, p1) {
                    Some((id, p2)) => Some((TreeEntry::TreeId(id), p2)),
                    None => None,
                }
            } else if tag == 2 {
                match take_id(s, p1) {
                    Some((id, p2)) => Some((TreeEntry::SymlinkId(id), p2)),
                    None => None,
                }
            } else if tag == 3 {
                match take_id(s, p1) {
                    Some((id, p2)) => Some((TreeEntry::ConflictId(id), p2)),
                    None => None,
                }
            } else {
                None
            }
        },
        None => None,
    }
}

fn take_mapping(s: &[u8], pos: usize) -> (r: Option<(TreeEntryMapping, usize)>)
    requires
        pos <= s@.len(),
    ensures
        match r {
            Some((m, p)) => dec_mapping(s@.skip(pos as int)) == Some((m@, p - pos as int)) && pos
                < p <= s@.len(),
            None => dec_mapping(s@.skip(pos as int)) is None,
        },
{
    match take_str(s, pos) {
        Some((name, p1)) => {
            proof {
                assert(s@.skip(pos as int).skip(p1 - pos as int) =~= s@.skip(p1 as int));
            }
            match take_entry(s, p1) {
                Some((entry, p2)) => Some((TreeEntryMapping { name, entry }, p2)),
                None => None,
            }
        },
        None => None,
    }
}

fn take_mappings(s: &[u8], pos: usize, n: u64) -> (r: Option<(Vec<TreeEntryMapping>, usize)>)
    requires
        pos <= s@.len(),
    ensures
        match r {
            Some((ms, p)) => dec_mappings(s@.skip(pos as int), n as nat) == Some(
                (ms@.map_values(|m: TreeEntryMapping| m@), p - pos as int),
            ) && pos <= p <= s@.len(),
            None => dec_mappings(s@.skip(pos as int), n as nat) is None,
        },
    decreases n,
{
    if n == 0 {
        let ms: Vec<TreeEntryMapping> = Vec::new();
        proof {
            assert(ms@.map_values(|m: TreeEntryMapping| m@) =~= Seq::<MappingView>::empty());
        }
        Some((ms, pos))
    } else {
        match take_mapping(s, pos) {
            Some((m, p1)) => {
                proof {
                    assert(s@.skip(pos as int).skip(p1 - pos as int) =~= s@.skip(p1 as int));
                }
                match take_mappings(s, p1, n - 1) {
                    Some((mut ms, p2)) => {
                        ms.insert(0, m);
                        proof {
                            assert(ms@.map_values(|x: TreeEntryMapping| x@) =~= seq![m@]
                                + ms@.drop_first().map_values(|x: TreeEntryMapping| x@));
                        }
                        Some((ms, p2))
                    },
                    None => None,
                }
            },
            None => None,
        }
    }
}

fn take_timestamp(s: &[u8], pos: usize) -> (r: Option<(CommitTimestamp, usize)>)
    requires
        pos <= s@.len(),
    ensures
        match r {
            Some((t, p)) => dec_timestamp(s@.skip(pos as int)) == Some((t@, p - pos as int)) && pos
                < p <= s@.len(),
            None => dec_timestamp(s@.skip(pos as int)) is None,
        },
{
    match take_u64(s, pos) {
        Some((millis, p1)) => {
            proof {
                assert(s@.skip(pos as int).skip(8) =~= s@.skip(p1 as int));
            }
            match take_u32(s, p1) {
                Some((tz, p2)) => Some(
                    (
                        CommitTimestamp {
                            millis_since_epoch: #[verifier::truncate] (millis as i64),
                            tz_offset: #[verifier::truncate] (tz as i32),
                        },
                        p2,
                    ),
                ),
                None => None,
            }
        },
        None => None,
    }
}

fn take_signature(s: &[u8], pos: usize) -> (r: Option<(CommitSignature, usize)>)
    requires
        pos <= s@.len(),
    ensures
        match r {
            Some((sig, p)) => dec_signature(s@.skip(pos as int)) == Some((sig@, p - pos as int))
                && pos < p <= s@.len(),
            None => dec_signature(s@.skip(pos as int)) is None,
        },
{
    match take_str(s, pos) {
        Some((name, p1)) => {
            proof {
                assert(s@.skip(pos as int).skip(p1 - pos as int) =~= s@.skip(p1 as int));
            }
            match take_str(s, p1) {
                Some((email, p2)) => {
                    proof {
                        assert(s@.skip(p1 as int).skip(p2 - p1 as int) =~= s@.skip(p2 as int));
                        assert(s@.skip(pos as int).skip(p2 - pos as int) =~= s@.skip(p2 as int));
                    }
                    match take_timestamp(s, p2) {
                        Some((timestamp, p3)) => Some(
                            (CommitSignature { name, email, timestamp }, p3),
                        ),
                        None => None,
                    }
                },
                None => None,
            }
        },
        None => None,
    }
}

fn take_opt_signature(s: &[u8], pos: usize) -> (r: Option<(Option<CommitSignature>, usize)>)
    requires
        pos <= s@.len(),
    ensures
        match r {
            Some((o, p)) => dec_opt_signature(s@.skip(pos as int)) == Some(
                (
                    match o {
                        Some(sig) => Some(sig@),
                        None => None,
                    },
                    p - pos as int,
                ),
            ) && pos < p <= s@.len(),
            None => dec_opt_signature(s@.skip(pos as int)) is None,
        },
{
    match take_byte(s, pos) {
        Some((tag, p1)) => {
            proof {
                assert(s@.skip(pos as int).skip(1) =~= s@.skip(p1 as int));
            }
            if tag == 0 {
                Some((None, p1))
            } else if tag == 1 {
                match take_signature(s, p1) {
                    Some((sig, p2)) => Some((Some(sig), p2)),
                    None => None,
                }
            } else {
                None
            }
        },
        None => None,
    }
}

/// Decode a file from its canonical byte encoding. `Err` exactly when the
/// bytes are not one whole well-formed file encoding.
pub fn decode_file(bytes: &[u8]) -> (r: Result<File, DecodeError>)
    ensures
        match r {
            Ok(f) => dec_file(bytes@) == Some((f@, bytes@.len() as int)),
            Err(_) => match dec_file(bytes@) {
                Some((c, k)) => k != bytes@.len(),
                None => true,
            },
        },
{
    proof {
        assert(bytes@.skip(0) =~= bytes@);
    }
    match take_byte(bytes, 0) {
        Some((tag, p1)) => {
            proof {
                assert(bytes@.skip(1) =~= bytes@.skip(p1 as int));
            }
            if tag == FILE_TAG {
                match take_bytes(bytes, p1) {
                    Some((content, p2)) => {
                        if p2 == bytes.len() {
                            Ok(File { content })
                        } else {
                            Err(DecodeError::Malformed)
                        }
                    },
                    None => Err(DecodeError::Malformed),
                }
            } else {
                Err(DecodeError::Malformed)
            }
        },
        None => Err(DecodeError::Malformed),
    }
}

/// Decode a symlink from its canonical byte encoding. `Err` exactly when the
/// bytes are not one whole well-formed symlink encoding.
pub fn decode_symlink(bytes: &[u8]) -> (r: Result<Symlink, DecodeError>)
    ensures
        match r {
            Ok(s) => dec_symlink(bytes@) == Some((s@, bytes@.len() as int)),
            Err(_) => match dec_symlink(bytes@) {
                Some((t, k)) => k != bytes@.len(),
                None => true,
            },
        },
{
    proof {
        assert(bytes@.skip(0) =~= bytes@);
    }
    match take_byte(bytes, 0) {
        Some((tag, p1)) => {
            proof {
                assert(bytes@.skip(1) =~= bytes@.skip(p1 as int));
            }
            if tag == SYMLINK_TAG {
                match take_str(bytes, p1) {
                    Some((target, p2)) => {
                        if p2 == bytes.len() {
                            Ok(Symlink { target })
                        } else {
                            Err(DecodeError::Malformed)
                        }
                    },
                    None => Err(DecodeError::Malformed),
                }
            } else {
                Err(DecodeError::Malformed)
            }
        },
        None => Err(DecodeError::Malformed),
    }
}

/// Decode a tree from its canonical byte encoding. `Err` exactly when the
/// bytes are not one whole well-formed tree encoding.
pub fn decode_tree(bytes: &[u8]) -> (r: Result<Tree, DecodeError>)
    ensures
        match r {
            Ok(t) => dec_tree(bytes@) == Some((t@, bytes@.len() as int)),
            Err(_) => match dec_tree(bytes@) {
                Some((t, k)) => k != bytes@.len(),
                None => true,
            },
        },
{
    proof {
        assert(bytes@.skip(0) =~= bytes@);
    }
    match take_byte(bytes, 0) {
        Some((tag, p1)) => {
            proof {
                assert(bytes@.skip(1) =~= bytes@.skip(p1 as int));
            }
            if tag == TREE_TAG {
                match take_u64(bytes, p1) {
                    Some((n, p2)) => {
                        proof {
                            assert(bytes@.skip(p1 as int).skip(8) =~= bytes@.skip(p2 as int));
                            assert(bytes@.skip(1).skip(p2 - 1 as int) =~= bytes@.skip(p2 as int));
                        }
                        match take_mappings(bytes, p2, n) {
                            Some((entries, p3)) => {
                                if p3 == bytes.len() {
                                    Ok(Tree { entries })
                                } else {
                                    Err(DecodeError::Malformed)
                                }
                            },
                            None => Err(DecodeError::Malformed),
                        }
                    },
                    None => Err(DecodeError::Malformed),
                }
            } else {
                Err(DecodeError::Malformed)
            }
        },
        None => Err(DecodeError::Malformed),
    }
}

proof fn lemma_skip_skip(s: Seq<u8>, a: int, b: int)
    requires
        0 <= a,
        0 <= b,
        a + b <= s.len(),
    ensures
        s.skip(a).skip(b) == s.skip(a + b),
{
    assert(s.skip(a).skip(b) =~= s.skip(a + b));
}

/// Decode a commit from its canonical byte encoding. `Err` exactly when the
/// bytes are not one whole well-formed commit encoding.
#[verifier::rlimit(100)]
pub fn decode_commit(bytes: &[u8]) -> (r: Result<Commit, DecodeError>)
    ensures
        match r {
            Ok(c) => dec_commit(bytes@) == Some((c@, bytes@.len() as int)),
            Err(_) => match dec_commit(bytes@) {
                Some((c, k)) => k != bytes@.len(),
                None => true,
            },
        },
{
    proof {
        assert(bytes@.skip(0) =~= bytes@);
    }
    let r0 = take_byte(bytes, 0);
    if r0.is_none() {
        return Err(DecodeError::Malformed);
    }
    let (tag, p0) = r0.unwrap();
    if tag != COMMIT_TAG {
        return Err(DecodeError::Malformed);
    }
    proof {
        assert(bytes@.skip(1) =~= bytes@.skip(p0 as int));
    }
    let r1 = take_id_list(bytes, p0);
    if r1.is_none() {
        return Err(DecodeError::Malformed);
    }
    let (parents, p1) = r1.unwrap();
    proof {
        lemma_skip_skip(bytes@, p0 as int, p1 - p0 as int);
    }
    let r2 = take_id_list(bytes, p1);
    if r2.is_none() {
        return Err(DecodeError::Malformed);
    }
    let (predecessors, p2) = r2.unwrap();
    proof {
        lemma_skip_skip(bytes@, p1 as int, p2 - p1 as int);
    }
    let r3 = take_id(bytes, p2);
    if r3.is_none() {
        return Err(DecodeError::Malformed);
    }
    let (root_tree, p3) = r3.unwrap();
    proof {
        lemma_skip_skip(bytes@, p2 as int, p3 - p2 as int);
    }
    let r4 = take_bool(bytes, p3);
    if r4.is_none() {
        return Err(DecodeError::Malformed);
    }
    let (uses_tree_conflict_format, p4) = r4.unwrap();
    proof {
        lemma_skip_skip(bytes@, p3 as int, p4 - p3 as int);
    }
    let r5 = take_bytes(bytes, p4);
    if r5.is_none() {
        return Err(DecodeError::Malformed);
    }
    let (change_id, p5) = r5.unwrap();
    proof {
        lemma_skip_skip(bytes@, p4 as int, p5 - p4 as int);
    }
    let r6 = take_str(bytes, p5);
    if r6.is_none() {
        return Err(DecodeError::Malformed);
    }
    let (description, p6) = r6.unwrap();
    proof {
        lemma_skip_skip(bytes@, p5 as int, p6 - p5 as int);
    }
    let r7 = take_opt_signature(bytes, p6);
    if r7.is_none() {
        return Err(DecodeError::Malformed);
    }
    let (author, p7) = r7.unwrap();
    proof {
        lemma_skip_skip(bytes@, p6 as int, p7 - p6 as int);
    }
    let r8 = take_opt_signature(bytes, p7);
    if r8.is_none() {
        return Err(DecodeError::Malformed);
    }
    let (committer, p8) = r8.unwrap();
    if p8 != bytes.len() {
        return Err(DecodeError::Malformed);
    }
    Ok(
        Commit {
            parents,
            predecessors,
            root_tree,
            uses_tree_conflict_format,
            change_id,
            description,
            author,
            committer,
        },
    )
}

} // verus!
