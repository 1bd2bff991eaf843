use yakd::codec::{
    decode_commit, decode_file, decode_symlink, decode_tree, encode_commit, encode_file,
    encode_symlink, encode_tree,
};
use yakd::ids::Id;
use yakd::objects::{
    Commit, CommitSignature, CommitTimestamp, File, Symlink, Tree, TreeEntry, TreeEntryMapping,
};

#[test]
fn file_encoding_exact_bytes() {
    let f = File { content: b"ab".to_vec() };
    let enc = encode_file(&f);
    let expected = vec![1u8, 2, 0, 0, 0, 0, 0, 0, 0, b'a', b'b'];
    assert_eq!(enc, expected);
}

#[test]
fn symlink_encoding_exact_bytes() {
    let s = Symlink { target: "xy".to_string() };
    let enc = encode_symlink(&s);
    let expected = vec![2u8, 2, 0, 0, 0, 0, 0, 0, 0, b'x', b'y'];
    assert_eq!(enc, expected);
}

#[test]
fn file_wire_round_trip() {
    let f = File { content: b"the quick brown fox".to_vec() };
    let enc = encode_file(&f);
    assert_eq!(decode_file(&enc).unwrap(), f);

    let empty = File { content: vec![] };
    let enc = encode_file(&empty);
    assert_eq!(decode_file(&enc).unwrap(), empty);
}

#[test]
fn symlink_wire_round_trip() {
    let s = Symlink { target: "dir/target-with-ünïcode".to_string() };
    let enc = encode_symlink(&s);
    assert_eq!(decode_symlink(&enc).unwrap(), s);
}

#[test]
fn tree_wire_round_trip_covers_every_entry_kind() {
    let tree = Tree {
        entries: vec![
            TreeEntryMapping {
                name: "plain".to_string(),
                entry: TreeEntry::File { id: Id([1u8; 32]), executable: false },
            },
            TreeEntryMapping {
                name: "script".to_string(),
                entry: TreeEntry::File { id: Id([2u8; 32]), executable: true },
            },
            TreeEntryMapping { name: "nested".to_string(), entry: TreeEntry::TreeId(Id([3u8; 32])) },
            TreeEntryMapping { name: "ln".to_string(), entry: TreeEntry::SymlinkId(Id([4u8; 32])) },
            TreeEntryMapping {
                name: "both".to_string(),
                entry: TreeEntry::ConflictId(Id([5u8; 32])),
            },
        ],
    };
    let enc = encode_tree(&tree);
    assert_eq!(decode_tree(&enc).unwrap(), tree);
}

#[test]
fn commit_wire_round_trip() {
    let commit = Commit {
        parents: vec![Id::sentinel(), Id([0xau8; 32])],
        predecessors: vec![],
        root_tree: Id([0xbu8; 32]),
        uses_tree_conflict_format: true,
        change_id: vec![1, 2, 3],
        description: "fix: handle the empty case\n\nJosé reported it.".to_string(),
        author: Some(CommitSignature {
            name: "José".to_string(),
            email: "jose@example.net".to_string(),
            timestamp: CommitTimestamp { millis_since_epoch: -1, tz_offset: -720 },
        }),
        committer: None,
    };
    let enc = encode_commit(&commit);
    assert_eq!(decode_commit(&enc).unwrap(), commit);
}

#[test]
fn truncated_encodings_are_rejected() {
    let f = File { content: b"hello".to_vec() };
    let mut enc = encode_file(&f);
    enc.pop();
    assert!(decode_file(&enc).is_err());

    let t = Tree {
        entries: vec![TreeEntryMapping {
            name: "a".to_string(),
            entry: TreeEntry::TreeId(Id([6u8; 32])),
        }],
    };
    let mut enc = encode_tree(&t);
    enc.truncate(enc.len() - 10);
    assert!(decode_tree(&enc).is_err());
}

#[test]
fn trailing_bytes_are_rejected() {
    let f = File { content: b"hello".to_vec() };
    let mut enc = encode_file(&f);
    enc.push(0);
    assert!(decode_file(&enc).is_err());
}

#[test]
fn wrong_discriminant_is_rejected() {
    let f = File { content: b"hello".to_vec() };
    let enc = encode_file(&f);
    // a file encoding is not a symlink encoding
    assert!(decode_symlink(&enc).is_err());
    // and an unknown leading discriminant is malformed for every kind
    let mut bogus = enc.clone();
    bogus[0] = 0x7f;
    assert!(decode_file(&bogus).is_err());
    assert!(decode_tree(&bogus).is_err());
    assert!(decode_commit(&bogus).is_err());
}

#[test]
fn invalid_utf8_in_a_string_is_rejected() {
    // a symlink whose two payload bytes are not UTF-8
    let bogus = vec![2u8, 2, 0, 0, 0, 0, 0, 0, 0, 0xff, 0xfe];
    assert!(decode_symlink(&bogus).is_err());
}

#[test]
fn empty_input_is_rejected() {
    let empty: Vec<u8> = vec![];
    assert!(decode_file(&empty).is_err());
    assert!(decode_symlink(&empty).is_err());
    assert!(decode_tree(&empty).is_err());
    assert!(decode_commit(&empty).is_err());
}
