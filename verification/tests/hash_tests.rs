use yakd::ids::Id;
use yakd::objects::{File, Symlink, Tree, TreeEntry, TreeEntryMapping};

#[test]
fn content_hash_is_deterministic() {
    let f1 = File { content: b"same bytes".to_vec() };
    let f2 = File { content: b"same bytes".to_vec() };
    assert_eq!(f1.get_hash(), f1.get_hash());
    assert_eq!(f1.get_hash(), f2.get_hash());

    let s1 = Symlink { target: "a/b".to_string() };
    let s2 = Symlink { target: "a/b".to_string() };
    assert_eq!(s1.get_hash(), s2.get_hash());

    let t1 = Tree { entries: vec![] };
    let t2 = Tree { entries: vec![] };
    assert_eq!(t1.get_hash(), t2.get_hash());
}

#[test]
fn distinct_contents_hash_apart() {
    let a = File { content: b"aaa".to_vec() };
    let b = File { content: b"aab".to_vec() };
    assert_ne!(a.get_hash(), b.get_hash());

    let empty = File { content: vec![] };
    assert_ne!(a.get_hash(), empty.get_hash());

    let s1 = Symlink { target: "x".to_string() };
    let s2 = Symlink { target: "y".to_string() };
    assert_ne!(s1.get_hash(), s2.get_hash());
}

#[test]
fn reordered_tree_hashes_apart() {
    let ma = TreeEntryMapping {
        name: "a".to_string(),
        entry: TreeEntry::File { id: Id([1u8; 32]), executable: false },
    };
    let mb = TreeEntryMapping {
        name: "b".to_string(),
        entry: TreeEntry::File { id: Id([2u8; 32]), executable: false },
    };
    let t1 = Tree { entries: vec![ma.clone(), mb.clone()] };
    let t2 = Tree { entries: vec![mb, ma] };
    assert_ne!(t1.get_hash(), t2.get_hash());
}

#[test]
fn kinds_hash_apart() {
    // a file holding the bytes of "abc" and a symlink targeting "abc"
    let f = File { content: b"abc".to_vec() };
    let s = Symlink { target: "abc".to_string() };
    assert_ne!(f.get_hash(), s.get_hash());

    // an empty file and the empty tree
    let e = File { content: vec![] };
    let t = Tree { entries: vec![] };
    assert_ne!(e.get_hash(), t.get_hash());
}

#[test]
fn file_hash_is_blake3_of_the_canonical_encoding() {
    // file encoding: the file discriminant, the 64-bit little-endian content
    // length, then the content bytes
    let content = b"hello".to_vec();
    let mut encoding: Vec<u8> = vec![1u8];
    encoding.extend_from_slice(&5u64.to_le_bytes());
    encoding.extend_from_slice(b"hello");
    let expected = blake3::hash(&encoding);

    let file = File { content };
    assert_eq!(&file.get_hash().0, expected.as_bytes());
}

#[test]
fn executable_bit_changes_the_tree_hash() {
    let id = Id([3u8; 32]);
    let t1 = Tree {
        entries: vec![TreeEntryMapping {
            name: "bin".to_string(),
            entry: TreeEntry::File { id, executable: false },
        }],
    };
    let t2 = Tree {
        entries: vec![TreeEntryMapping {
            name: "bin".to_string(),
            entry: TreeEntry::File { id, executable: true },
        }],
    };
    assert_ne!(t1.get_hash(), t2.get_hash());
}
