use smpt::bytes::bytes_eq;
use smpt::error::TrieError;
use smpt::keccak_hasher::KeccakHasher;
use smpt::trie::nibbleslice::NibbleSlice;
use smpt::trie::node::Node;
use smpt::trie::{is_empty_ref, ChildRef, Trie, DIGEST_LEN, HASHED_NULL_NODE_BYTES, NULL_RLP};

fn rlp_header(short_base: u8, long_base: u8, len: usize) -> Vec<u8> {
    if len <= 55 {
        return vec![short_base + len as u8];
    }
    let mut digits: Vec<u8> = Vec::new();
    let mut left: usize = len;
    while left > 0 {
        digits.insert(0, (left & 0xff) as u8);
        left >>= 8;
    }
    let mut out: Vec<u8> = vec![long_base + digits.len() as u8];
    out.extend_from_slice(&digits);
    out
}

fn rlp_str(bytes: &[u8]) -> Vec<u8> {
    if bytes.len() == 1 && bytes[0] <= 0x7f {
        return vec![bytes[0]];
    }
    let mut out: Vec<u8> = rlp_header(0x80, 0xb7, bytes.len());
    out.extend_from_slice(bytes);
    out
}

fn rlp_list(items: &[Vec<u8>]) -> Vec<u8> {
    let mut payload: Vec<u8> = Vec::new();
    for item in items.iter() {
        payload.extend_from_slice(item);
    }
    let mut out: Vec<u8> = rlp_header(0xc0, 0xf7, payload.len());
    out.extend_from_slice(&payload);
    out
}

fn leaf(path: &NibbleSlice, value: &[u8]) -> Vec<u8> {
    rlp_list(&[rlp_str(&path.encoded(true)), rlp_str(value)])
}

fn extension(path: &NibbleSlice, child: &[u8]) -> Vec<u8> {
    rlp_list(&[rlp_str(&path.encoded(false)), rlp_str(child)])
}

fn branch(children: &[(u8, Vec<u8>)], value: &[u8]) -> Vec<u8> {
    let mut items: Vec<Vec<u8>> = Vec::new();
    let mut i: u8 = 0;
    while i < 16 {
        let mut child: Vec<u8> = Vec::new();
        for (slot, bytes) in children.iter() {
            if *slot == i {
                child = bytes.clone();
            }
        }
        items.push(rlp_str(&child));
        i += 1;
    }
    items.push(rlp_str(value));
    rlp_list(&items)
}

/// A key of one byte whose path begins with `nibble`.
fn key_starting_with(nibble: u8) -> [u8; 1] {
    let mut k: u8 = 0;
    loop {
        if tiny_keccak::keccak256(&[k])[0] >> 4 == nibble {
            return [k];
        }
        k += 1;
    }
}

#[test]
fn hash_is_keccak256() {
    let empty: [u8; 32] = [
        0xc5, 0xd2, 0x46, 0x01, 0x86, 0xf7, 0x23, 0x3c, 0x92, 0x7e, 0x7d, 0xb2, 0xdc, 0xc7, 0x03,
        0xc0, 0xe5, 0x00, 0xb6, 0x53, 0xca, 0x82, 0x27, 0x3b, 0x7b, 0xfa, 0xd8, 0x04, 0x5d, 0x85,
        0xa4, 0x70,
    ];
    assert_eq!(KeccakHasher::hash(&[]), empty);
    assert_eq!(KeccakHasher::hash(b"abc"), tiny_keccak::keccak256(b"abc"));
    assert_ne!(KeccakHasher::hash(b"abc"), KeccakHasher::hash(b"abd"));
}

#[test]
fn empty_node_digest_is_the_hash_of_the_empty_string() {
    assert_eq!(KeccakHasher::hash(&NULL_RLP), HASHED_NULL_NODE_BYTES);
    assert_eq!(HASHED_NULL_NODE_BYTES.len(), DIGEST_LEN);
    assert_eq!(KeccakHasher::LENGTH, DIGEST_LEN);
    assert_eq!(KeccakHasher::hash(b"any").len(), KeccakHasher::LENGTH);
}

#[test]
fn bytes_are_compared_by_what_they_hold() {
    let a: Vec<u8> = vec![1, 2, 3];
    let b: [u8; 3] = [1, 2, 3];
    assert!(bytes_eq(&a, &b));
    assert!(bytes_eq(&[], &[]));
    assert!(!bytes_eq(&a, &b[..2]));
    assert!(!bytes_eq(&a, &[1, 2, 4]));
    assert!(!bytes_eq(&[], &[0]));
}

#[test]
fn empty_refs_are_recognised() {
    assert!(is_empty_ref(&HASHED_NULL_NODE_BYTES));
    assert!(is_empty_ref(&[0x80]));
    assert!(!is_empty_ref(&[]));
    assert!(!is_empty_ref(&[0x80, 0x80]));
    assert!(!is_empty_ref(&[0u8; 32]));
}

#[test]
fn child_refs_are_told_apart() {
    assert_eq!(ChildRef::new(&HASHED_NULL_NODE_BYTES), ChildRef::Empty);
    assert_eq!(ChildRef::new(&NULL_RLP), ChildRef::Empty);
    assert_eq!(ChildRef::new(&[]), ChildRef::Inline(&[]));
    assert_eq!(ChildRef::new(&[0xc1, 0x80]), ChildRef::Inline(&[0xc1, 0x80]));
    assert_eq!(ChildRef::new(&[7u8; 31]), ChildRef::Inline(&[7u8; 31]));
    assert_eq!(ChildRef::new(&[7u8; 32]), ChildRef::Digest(&[7u8; 32]));
    assert_eq!(ChildRef::new(&[7u8; 33]), ChildRef::Digest(&[7u8; 33]));
}

#[test]
fn insert_returns_the_digest_and_files_the_node() {
    let mut trie = Trie::new();
    let node: Vec<u8> = b"some node bytes".to_vec();
    let digest: [u8; 32] = trie.db_insert(&node);
    assert_eq!(digest, tiny_keccak::keccak256(&node));
    assert_eq!(trie.db_get(&digest), Some(&node));
}

#[test]
fn store_misses_what_was_not_inserted() {
    let mut trie = Trie::with_capacity(4);
    assert_eq!(trie.db_get(&[0u8; 32]), None);
    let digest: [u8; 32] = trie.db_insert(b"one");
    assert_eq!(trie.db_get(&[0u8; 32]), None);
    assert_eq!(trie.db_get(&digest[..31]), None);
    assert_eq!(trie.db_get(&[]), None);
    assert_eq!(trie.db_get(&digest), Some(&b"one".to_vec()));
}

#[test]
fn same_node_twice_is_held_once() {
    let mut trie = Trie::new();
    let first: [u8; 32] = trie.db_insert(b"node");
    let other: [u8; 32] = trie.db_insert(b"other");
    let second: [u8; 32] = trie.db_insert(b"node");
    assert_eq!(first, second);
    assert_ne!(first, other);
    assert_eq!(trie.db_get(&first), Some(&b"node".to_vec()));
    assert_eq!(trie.db_get(&other), Some(&b"other".to_vec()));
}

#[test]
fn get_node_knows_the_empty_node() {
    let trie = Trie::new();
    assert_eq!(trie.get_node(&HASHED_NULL_NODE_BYTES), Ok(Node::Empty));
    assert_eq!(trie.get_node(&NULL_RLP), Ok(Node::Empty));
}

#[test]
fn get_node_decodes_short_refs_in_place() {
    let trie = Trie::new();
    let path_bytes: [u8; 1] = [0x12];
    let inline: Vec<u8> = leaf(&NibbleSlice::new(&path_bytes), b"v");
    assert!(inline.len() < DIGEST_LEN);
    match trie.get_node(&inline).unwrap() {
        Node::Leaf(path, value) => {
            assert!(path == NibbleSlice::new(&path_bytes));
            assert_eq!(value, b"v");
        }
        other => panic!("not a leaf: {:?}", other),
    }
    assert_eq!(trie.get_node(&[0x83, 1, 2, 3]), Err(TrieError::NotAList));
    assert_eq!(trie.get_node(&[]), Err(TrieError::EmptyNode));
}

#[test]
fn get_node_looks_digests_up() {
    let mut trie = Trie::new();
    let path_bytes: [u8; 1] = [0x12];
    let node: Vec<u8> = leaf(&NibbleSlice::new(&path_bytes), &[0xee; 40]);
    let digest: [u8; 32] = trie.db_insert(&node);
    match trie.get_node(&digest).unwrap() {
        Node::Leaf(_, value) => assert_eq!(value, &[0xee; 40][..]),
        other => panic!("not a leaf: {:?}", other),
    }
}

#[test]
fn get_node_misses_unknown_digests() {
    let mut trie = Trie::new();
    trie.db_insert(b"node");
    assert_eq!(trie.get_node(&[0x11; 32]), Err(TrieError::NodeNotFound));
    assert_eq!(trie.get_node(&[0x11; 33]), Err(TrieError::NodeNotFound));
}

#[test]
fn get_node_reports_what_it_cannot_decode() {
    let mut trie = Trie::new();
    let digest: [u8; 32] = trie.db_insert(&[0x83, 1, 2, 3]);
    assert_eq!(trie.get_node(&digest), Err(TrieError::NotAList));
}

#[test]
fn lookup_of_inlined_leaf_under_root_extension() {
    let key: [u8; 1] = [0x01];
    let hashed: [u8; 32] = tiny_keccak::keccak256(&key);
    let value: Vec<u8> = b"X".to_vec();
    let nothing = NibbleSlice::new(&[]);
    let child: Vec<u8> = leaf(&nothing, &value);
    assert!(child.len() < DIGEST_LEN);
    let root_node: Vec<u8> = extension(&NibbleSlice::new(&hashed), &child);
    let mut trie = Trie::new();
    let root: [u8; 32] = trie.db_insert(&root_node);
    assert_eq!(trie.get(&root, &key), Ok(value));
}

#[test]
fn lookup_of_single_leaf_root() {
    let key: [u8; 1] = [0x01];
    let hashed: [u8; 32] = tiny_keccak::keccak256(&key);
    let root_node: Vec<u8> = leaf(&NibbleSlice::new(&hashed), b"account");
    let mut trie = Trie::new();
    let root: [u8; 32] = trie.db_insert(&root_node);
    assert_eq!(trie.get(&root, &key), Ok(b"account".to_vec()));
    assert_eq!(trie.get(&root, &[0x02]), Err(TrieError::PathMismatch));
}

#[test]
fn branch_slot_that_is_empty_holds_no_key() {
    let key: [u8; 1] = key_starting_with(3);
    let node: Vec<u8> = branch(&[(3, HASHED_NULL_NODE_BYTES.to_vec())], b"");
    let mut trie = Trie::new();
    let root: [u8; 32] = trie.db_insert(&node);
    assert_eq!(trie.get(&root, &key), Err(TrieError::KeyNotPresent));
}

#[test]
fn branch_without_child_for_the_nibble() {
    let key: [u8; 1] = key_starting_with(4);
    let node: Vec<u8> = branch(&[(3, HASHED_NULL_NODE_BYTES.to_vec())], b"");
    let mut trie = Trie::new();
    let root: [u8; 32] = trie.db_insert(&node);
    assert_eq!(trie.get(&root, &key), Err(TrieError::MissingBranchChild));
}

#[test]
fn empty_root_holds_no_key() {
    let trie = Trie::new();
    assert_eq!(trie.get(&HASHED_NULL_NODE_BYTES, b"key"), Err(TrieError::KeyNotPresent));
}

#[test]
fn unknown_root_is_not_found() {
    let trie = Trie::new();
    assert_eq!(trie.get(&[0x42; 32], b"key"), Err(TrieError::NodeNotFound));
}

#[test]
fn missing_child_node_is_not_found() {
    let key: [u8; 1] = key_starting_with(7);
    let hashed: [u8; 32] = tiny_keccak::keccak256(&key);
    let path = NibbleSlice::new(&hashed);
    let child: Vec<u8> = leaf(&path.mid(1), &[0xaa; 40]);
    let child_digest: [u8; 32] = tiny_keccak::keccak256(&child);
    let node: Vec<u8> = branch(&[(7, child_digest.to_vec())], b"");
    let mut trie = Trie::new();
    let root: [u8; 32] = trie.db_insert(&node);
    assert_eq!(trie.get(&root, &key), Err(TrieError::NodeNotFound));
    trie.db_insert(&child);
    assert_eq!(trie.get(&root, &key), Ok(vec![0xaa; 40]));
}

#[test]
fn lookup_through_branch_extension_and_leaf() {
    let key: [u8; 1] = key_starting_with(0xc);
    let hashed: [u8; 32] = tiny_keccak::keccak256(&key);
    let path = NibbleSlice::new(&hashed);
    let value: Vec<u8> = vec![0x5a; 70];
    let bottom: Vec<u8> = leaf(&path.mid(11), &value);
    let bottom_digest: [u8; 32] = tiny_keccak::keccak256(&bottom);
    let middle: Vec<u8> = branch(&[(path.at(10), bottom_digest.to_vec())], b"");
    let middle_digest: [u8; 32] = tiny_keccak::keccak256(&middle);
    let nine: Vec<u8> = path.mid(1).encoded(false);
    let (nine_path, _) = NibbleSlice::from_encoded(&nine[..5]).unwrap();
    assert_eq!(nine_path.len(), 9);
    let upper: Vec<u8> = extension(&nine_path, &middle_digest);
    let upper_digest: [u8; 32] = tiny_keccak::keccak256(&upper);
    let top: Vec<u8> = branch(&[(0xc, upper_digest.to_vec())], b"");
    let mut trie = Trie::new();
    trie.db_insert(&bottom);
    trie.db_insert(&middle);
    trie.db_insert(&upper);
    let root: [u8; 32] = trie.db_insert(&top);
    assert_eq!(trie.get(&root, &key), Ok(value.clone()));
    assert_eq!(trie.lookup(&root, path), Ok(&value[..]));
    assert_eq!(trie.lookup(&upper_digest, path.mid(1)), Ok(&value[..]));
    assert_eq!(trie.lookup(&middle_digest, path.mid(10)), Ok(&value[..]));
    assert_eq!(trie.lookup(&bottom_digest, path.mid(11)), Ok(&value[..]));
    assert_eq!(trie.lookup(&bottom_digest, path.mid(10)), Err(TrieError::PathMismatch));
}

#[test]
fn lookup_ends_at_a_branch_value() {
    let path_bytes: [u8; 1] = [0x12];
    let path = NibbleSlice::new(&path_bytes);
    let with_value: Vec<u8> = branch(&[], b"at the branch");
    let without: Vec<u8> = branch(&[(1, b"\x80".to_vec())], b"");
    let mut trie = Trie::new();
    let above: Vec<u8> = extension(&path, &trie.db_insert(&with_value));
    let above_bare: Vec<u8> = extension(&path, &trie.db_insert(&without));
    let root: [u8; 32] = trie.db_insert(&above);
    let bare_root: [u8; 32] = trie.db_insert(&above_bare);
    assert_eq!(trie.lookup(&root, path), Ok(&b"at the branch"[..]));
    assert_eq!(trie.lookup(&bare_root, path), Err(TrieError::NoValueAtBranch));
}

#[test]
fn extension_off_the_path_is_a_mismatch() {
    let path_bytes: [u8; 2] = [0x12, 0x34];
    let other_bytes: [u8; 1] = [0x13];
    let node: Vec<u8> = extension(&NibbleSlice::new(&other_bytes), &HASHED_NULL_NODE_BYTES);
    let mut trie = Trie::new();
    let root: [u8; 32] = trie.db_insert(&node);
    assert_eq!(
        trie.lookup(&root, NibbleSlice::new(&path_bytes)),
        Err(TrieError::PathMismatch)
    );
}

#[test]
fn extension_without_path_cannot_loop() {
    let mut trie = Trie::new();
    let inner: Vec<u8> = extension(&NibbleSlice::new(&[]), &HASHED_NULL_NODE_BYTES);
    let root: [u8; 32] = trie.db_insert(&inner);
    let path_bytes: [u8; 1] = [0x12];
    assert_eq!(
        trie.lookup(&root, NibbleSlice::new(&path_bytes)),
        Err(TrieError::PathMismatch)
    );
}

#[test]
fn repeated_lookups_agree() {
    let key: [u8; 1] = [0x09];
    let hashed: [u8; 32] = tiny_keccak::keccak256(&key);
    let root_node: Vec<u8> = leaf(&NibbleSlice::new(&hashed), b"steady");
    let mut trie = Trie::new();
    let root: [u8; 32] = trie.db_insert(&root_node);
    let first = trie.get(&root, &key);
    let second = trie.get(&root, &key);
    let third = trie.get(&root, &key);
    assert_eq!(first, Ok(b"steady".to_vec()));
    assert_eq!(first, second);
    assert_eq!(second, third);
    let miss_first = trie.get(&root, b"absent");
    let miss_second = trie.get(&root, b"absent");
    assert_eq!(miss_first, Err(TrieError::PathMismatch));
    assert_eq!(miss_first, miss_second);
}

#[test]
fn verify_and_update_checks_the_path_and_changes_nothing() {
    let key: [u8; 1] = [0x01];
    let hashed: [u8; 32] = tiny_keccak::keccak256(&key);
    let root_node: Vec<u8> = leaf(&NibbleSlice::new(&hashed), b"account");
    let mut trie = Trie::new();
    let root: [u8; 32] = trie.db_insert(&root_node);
    let amount: [u8; 32] = [0u8; 32];
    assert_eq!(trie.verify_and_update(&root, &key, &amount, true), Ok(vec![]));
    assert_eq!(trie.verify_and_update(&root, &key, &amount, false), Ok(vec![]));
    assert_eq!(
        trie.verify_and_update(&root, &[0x02], &amount, true),
        Err(TrieError::PathMismatch)
    );
    assert_eq!(
        trie.verify_and_update(&[0x33; 32], &key, &amount, false),
        Err(TrieError::NodeNotFound)
    );
    assert_eq!(trie.db_get(&root), Some(&root_node));
    assert_eq!(trie.get(&root, &key), Ok(b"account".to_vec()));
}
