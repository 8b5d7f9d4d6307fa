use smpt::error::TrieError;
use smpt::trie::nibbleslice::NibbleSlice;

fn nibbles_of(path: &NibbleSlice) -> Vec<u8> {
    let mut out: Vec<u8> = Vec::new();
    let mut i: usize = 0;
    while i < path.len() {
        out.push(path.at(i));
        i += 1;
    }
    out
}

#[test]
fn path_has_two_nibbles_a_byte() {
    let data: [u8; 3] = [0x12, 0x34, 0xab];
    let path = NibbleSlice::new(&data);
    assert_eq!(path.len(), 6);
    assert!(!path.is_empty());
    assert_eq!(nibbles_of(&path), vec![1, 2, 3, 4, 0xa, 0xb]);
}

#[test]
fn high_nibble_comes_first() {
    let data: [u8; 1] = [0xf0];
    let path = NibbleSlice::new(&data);
    assert_eq!(path.at(0), 0xf);
    assert_eq!(path.at(1), 0x0);
}

#[test]
fn path_over_nothing_is_empty() {
    let path = NibbleSlice::new(&[]);
    assert_eq!(path.len(), 0);
    assert!(path.is_empty());
}

#[test]
fn mid_skips_nibbles() {
    let data: [u8; 3] = [0x12, 0x34, 0x56];
    let path = NibbleSlice::new(&data);
    assert_eq!(nibbles_of(&path.mid(0)), vec![1, 2, 3, 4, 5, 6]);
    assert_eq!(nibbles_of(&path.mid(1)), vec![2, 3, 4, 5, 6]);
    assert_eq!(nibbles_of(&path.mid(4)), vec![5, 6]);
    assert_eq!(nibbles_of(&path.mid(1).mid(2)), vec![4, 5, 6]);
}

#[test]
fn mid_can_leave_nothing() {
    let data: [u8; 2] = [0x12, 0x34];
    let path = NibbleSlice::new(&data);
    let rest = path.mid(4);
    assert!(rest.is_empty());
    assert_eq!(rest.len(), 0);
    assert!(rest.mid(0).is_empty());
}

#[test]
fn starts_with_goes_nibble_by_nibble() {
    let data: [u8; 3] = [0x12, 0x34, 0x56];
    let other: [u8; 2] = [0x12, 0x30];
    let path = NibbleSlice::new(&data);
    let them = NibbleSlice::new(&other);
    assert!(!path.starts_with(&them));
    let three = NibbleSlice::from_encoded(&[0x11, 0x23]).unwrap().0;
    assert_eq!(nibbles_of(&three), vec![1, 2, 3]);
    assert!(path.starts_with(&three));
    assert!(path.starts_with(&path));
    assert!(path.starts_with(&NibbleSlice::new(&[])));
    assert!(!three.starts_with(&path));
}

#[test]
fn starts_with_across_byte_boundaries() {
    let data: [u8; 3] = [0x12, 0x34, 0x56];
    let shifted: [u8; 2] = [0x23, 0x45];
    let path = NibbleSlice::new(&data).mid(1);
    let them = NibbleSlice::new(&shifted);
    assert!(path.starts_with(&them));
    assert!(!NibbleSlice::new(&data).starts_with(&them));
}

#[test]
fn equal_paths_hold_equal_nibbles() {
    let data: [u8; 3] = [0x12, 0x34, 0x56];
    let shifted: [u8; 3] = [0x01, 0x23, 0x45];
    let a = NibbleSlice::new(&data).mid(0);
    let b = NibbleSlice::new(&shifted).mid(1);
    assert!(a != b);
    assert!(a.mid(1).starts_with(&NibbleSlice::new(&[0x23])));
    let c = NibbleSlice::new(&data).mid(1);
    let d = NibbleSlice::from_encoded(&[0x12, 0x34, 0x56]).unwrap().0;
    assert!(c == d);
    assert!(NibbleSlice::new(&[]) == NibbleSlice::new(&data).mid(6));
    assert!(NibbleSlice::new(&data) != NibbleSlice::new(&data).mid(2));
}

#[test]
fn from_encoded_even_extension() {
    let (path, is_leaf) = NibbleSlice::from_encoded(&[0x00, 0x12, 0x34]).unwrap();
    assert!(!is_leaf);
    assert_eq!(nibbles_of(&path), vec![1, 2, 3, 4]);
}

#[test]
fn from_encoded_odd_extension() {
    let (path, is_leaf) = NibbleSlice::from_encoded(&[0x11, 0x23]).unwrap();
    assert!(!is_leaf);
    assert_eq!(nibbles_of(&path), vec![1, 2, 3]);
}

#[test]
fn from_encoded_even_leaf() {
    let (path, is_leaf) = NibbleSlice::from_encoded(&[0x20, 0xab]).unwrap();
    assert!(is_leaf);
    assert_eq!(nibbles_of(&path), vec![0xa, 0xb]);
}

#[test]
fn from_encoded_odd_leaf() {
    let (path, is_leaf) = NibbleSlice::from_encoded(&[0x3f]).unwrap();
    assert!(is_leaf);
    assert_eq!(nibbles_of(&path), vec![0xf]);
}

#[test]
fn from_encoded_empty_paths() {
    let (leaf, is_leaf) = NibbleSlice::from_encoded(&[0x20]).unwrap();
    assert!(is_leaf);
    assert!(leaf.is_empty());
    let (ext, is_leaf) = NibbleSlice::from_encoded(&[0x00]).unwrap();
    assert!(!is_leaf);
    assert!(ext.is_empty());
}

#[test]
fn from_encoded_refuses_what_is_no_encoding() {
    assert_eq!(NibbleSlice::from_encoded(&[]).err(), Some(TrieError::MalformedNode));
    assert_eq!(NibbleSlice::from_encoded(&[0x40, 0x12]).err(), Some(TrieError::MalformedNode));
    assert_eq!(NibbleSlice::from_encoded(&[0xf1]).err(), Some(TrieError::MalformedNode));
    assert_eq!(NibbleSlice::from_encoded(&[0x01, 0x23]).err(), Some(TrieError::MalformedNode));
    assert_eq!(NibbleSlice::from_encoded(&[0x2f]).err(), Some(TrieError::MalformedNode));
}

#[test]
fn encoded_writes_the_flags() {
    let data: [u8; 2] = [0x12, 0x34];
    let path = NibbleSlice::new(&data);
    assert_eq!(path.encoded(false), vec![0x00, 0x12, 0x34]);
    assert_eq!(path.encoded(true), vec![0x20, 0x12, 0x34]);
    assert_eq!(path.mid(1).encoded(false), vec![0x12, 0x34]);
    assert_eq!(path.mid(1).encoded(true), vec![0x32, 0x34]);
    assert_eq!(path.mid(4).encoded(true), vec![0x20]);
    assert_eq!(path.mid(4).encoded(false), vec![0x00]);
    assert_eq!(path.mid(3).encoded(false), vec![0x14]);
}

#[test]
fn encoding_round_trip_gives_the_bytes_back() {
    let encodings: Vec<Vec<u8>> = vec![
        vec![0x00],
        vec![0x20],
        vec![0x10],
        vec![0x3f],
        vec![0x00, 0xff, 0x01],
        vec![0x1a, 0xbc, 0xde],
        vec![0x20, 0x00, 0x00, 0x99],
        vec![0x37, 0x65, 0x43, 0x21, 0x0f],
    ];
    for encoding in encodings.iter() {
        let (path, is_leaf) = NibbleSlice::from_encoded(encoding).unwrap();
        assert_eq!(&path.encoded(is_leaf), encoding);
    }
}

#[test]
fn decoding_an_encoding_gives_the_path_back() {
    let data: [u8; 4] = [0xde, 0xad, 0xbe, 0xef];
    let mut skip: usize = 0;
    while skip <= 8 {
        let path = NibbleSlice::new(&data).mid(skip);
        for leaf in [false, true] {
            let bytes: Vec<u8> = path.encoded(leaf);
            let (back, is_leaf) = NibbleSlice::from_encoded(&bytes).unwrap();
            assert_eq!(is_leaf, leaf);
            assert!(back == path);
            assert_eq!(nibbles_of(&back), nibbles_of(&path));
        }
        skip += 1;
    }
}
