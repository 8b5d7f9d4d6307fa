//! Paths through the trie, one nibble a step.

use vstd::prelude::*;
use crate::error::TrieError;

verus! {

/// The nibble at place `i` of `bytes`: the high half of each byte comes first.
#[verifier::opaque]
pub open spec fn nibble_of(bytes: Seq<u8>, i: int) -> u8 {
    if i % 2 == 0 {
        bytes[i / 2] / 16
    } else {
        bytes[i / 2] % 16
    }
}

/// `bytes` as nibbles, two for each byte.
pub open spec fn nibbles(bytes: Seq<u8>) -> Seq<u8> {
    Seq::new((2 * bytes.len()) as nat, |i: int| nibble_of(bytes, i))
}

/// `path` begins with `prefix`.
pub open spec fn is_prefix(prefix: Seq<u8>, path: Seq<u8>) -> bool {
    prefix.len() <= path.len() && path.take(prefix.len() as int) == prefix
}

/// `encoded` is the hex-prefix encoding of some path: its first nibble holds
/// two flags and nothing else, and before a path of even length a zero nibble
/// fills the first byte.
pub open spec fn valid_hex_prefix(encoded: Seq<u8>) -> bool {
    &&& encoded.len() > 0
    &&& encoded[0] / 16 < 4
    &&& (encoded[0] / 16) % 2 == 0 ==> encoded[0] % 16 == 0
}

/// The nibbles of `encoded` can be counted in a `usize`. Every slice that a
/// machine can hold is that short.
pub open spec fn fits_nibble_index(encoded: Seq<u8>) -> bool {
    2 * encoded.len() <= usize::MAX
}

/// The flag for a path of odd length, the low bit of the first nibble.
pub open spec fn hex_prefix_is_odd(encoded: Seq<u8>) -> bool {
    (encoded[0] / 16) % 2 == 1
}

/// The flag that tells a leaf from an extension, the bit above the low one.
pub open spec fn hex_prefix_is_leaf(encoded: Seq<u8>) -> bool {
    (encoded[0] / 32) % 2 == 1
}

/// The path that `encoded` carries behind its flags.
pub open spec fn hex_prefix_path(encoded: Seq<u8>) -> Seq<u8> {
    nibbles(encoded).skip(
        if hex_prefix_is_odd(encoded) {
            1
        } else {
            2
        },
    )
}

/// What `from_encoded` makes of `encoded`: the path and the leaf flag.
pub open spec fn spec_from_encoded(encoded: Seq<u8>) -> Result<(Seq<u8>, bool), TrieError> {
    if valid_hex_prefix(encoded) && fits_nibble_index(encoded) {
        Ok((hex_prefix_path(encoded), hex_prefix_is_leaf(encoded)))
    } else {
        Err(TrieError::MalformedNode)
    }
}

/// The byte made of the pair of nibbles at place `i` of `nibbles`, the first
/// of the pair on top.
#[verifier::opaque]
pub open spec fn byte_of(nibbles: Seq<u8>, i: int) -> u8 {
    (nibbles[2 * i] * 16 + nibbles[2 * i + 1]) as u8
}

/// What `from_encoded` hands back, with the path replaced by its nibbles.
pub open spec fn path_result_view(res: Result<(NibbleSlice, bool), TrieError>) -> Result<
    (Seq<u8>, bool),
    TrieError,
> {
    match res {
        Ok((path, is_leaf)) => Ok((path@, is_leaf)),
        Err(e) => Err(e),
    }
}

/// Bytes made of `nibbles` pair by pair.
pub open spec fn pack(nibbles: Seq<u8>) -> Seq<u8> {
    Seq::new((nibbles.len() / 2) as nat, |i: int| byte_of(nibbles, i))
}

/// The hex-prefix encoding of `path`: the flags, a zero nibble if the path is
/// of even length, then the path, packed into bytes.
pub open spec fn hex_prefix_encode(path: Seq<u8>, is_leaf: bool) -> Seq<u8> {
    let flag: u8 = if is_leaf {
        2
    } else {
        0
    };
    if path.len() % 2 == 1 {
        pack(seq![(flag + 1) as u8] + path)
    } else {
        pack(seq![flag, 0u8] + path)
    }
}

/// A read-only view of the nibbles of a byte slice, from some nibble on.
#[derive(Clone, Copy, Debug)]
pub struct NibbleSlice<'a> {
    data: &'a [u8],
    offset: usize,
}

impl<'a> View for NibbleSlice<'a> {
    type V = Seq<u8>;

    /// The nibbles of the path, first to last, each below 16.
    closed spec fn view(&self) -> Seq<u8> {
        nibbles(self.data@).skip(self.offset as int)
    }
}

impl<'a> NibbleSlice<'a> {
    /// The path begins within the nibbles of its bytes, and these can be
    /// counted in a `usize`.
    #[verifier::type_invariant]
    spec fn wf(self) -> bool {
        self.offset <= 2 * self.data@.len() <= usize::MAX
    }

    /// The path of all nibbles of `data`.
    pub fn new(data: &'a [u8]) -> (path: Self)
        requires
            2 * data@.len() <= usize::MAX,
        ensures
            path@ == nibbles(data@),
    {
        NibbleSlice { data, offset: 0 }
    }

    /// Strips the flags from a hex-prefix encoding: returns the path that it
    /// carries and whether it marks a leaf.
    pub fn from_encoded(data: &'a [u8]) -> (res: Result<(NibbleSlice<'a>, bool), TrieError>)
        ensures
            path_result_view(res) == spec_from_encoded(data@),
    {
        if data.len() == 0 || data.len() > usize::MAX / 2 {
            return Err(TrieError::MalformedNode);
        }
        let first: u8 = data[0];
        let flags: u8 = first / 16;
        if flags >= 4 {
            return Err(TrieError::MalformedNode);
        }
        let odd: bool = flags % 2 == 1;
        if !odd && first % 16 != 0 {
            return Err(TrieError::MalformedNode);
        }
        let offset: usize = if odd {
            1
        } else {
            2
        };
        Ok((NibbleSlice { data, offset }, flags >= 2))
    }

    /// The number of nibbles.
    pub fn len(&self) -> (n: usize)
        ensures
            n == self@.len(),
    {
        proof {
            use_type_invariant(self);
        }
        2 * self.data.len() - self.offset
    }

    /// Whether no nibble is left.
    pub fn is_empty(&self) -> (b: bool)
        ensures
            b == (self@.len() == 0),
    {
        self.len() == 0
    }

    /// The nibble at place `i`.
    pub fn at(&self, i: usize) -> (nibble: u8)
        requires
            i < self@.len(),
        ensures
            nibble == self@[i as int],
            nibble < 16,
    {
        proof {
            use_type_invariant(self);
            reveal(nibble_of);
        }
        let at: usize = self.offset + i;
        let byte: u8 = self.data[at / 2];
        if at % 2 == 0 {
            byte / 16
        } else {
            byte % 16
        }
    }

    /// The path without its first `k` nibbles: a view of the same bytes.
    pub fn mid(&self, k: usize) -> (rest: NibbleSlice<'a>)
        requires
            k <= self@.len(),
        ensures
            rest@ == self@.skip(k as int),
    {
        proof {
            use_type_invariant(self);
        }
        NibbleSlice { data: self.data, offset: self.offset + k }
    }

    /// Whether the path begins with `them`.
    pub fn starts_with(&self, them: &NibbleSlice) -> (b: bool)
        ensures
            b == is_prefix(them@, self@),
    {
        let n: usize = them.len();
        if self.len() < n {
            return false;
        }
        let mut i: usize = 0;
        while i < n
            invariant
                0 <= i <= n,
                n == them@.len(),
                n <= self@.len(),
                forall|j: int| 0 <= j < i ==> self@[j] == them@[j],
            decreases n - i,
        {
            if self.at(i) != them.at(i) {
                return false;
            }
            i += 1;
        }
        proof {
            assert(self@.take(n as int) =~= them@);
        }
        true
    }

    /// The hex-prefix encoding of the path, flagged as a leaf's or as an
    /// extension's.
    pub fn encoded(&self, is_leaf: bool) -> (bytes: Vec<u8>)
        ensures
            bytes@ == hex_prefix_encode(self@, is_leaf),
    {
        let n: usize = self.len();
        let flag: u8 = if is_leaf {
            2
        } else {
            0
        };
        let mut bytes: Vec<u8> = Vec::new();
        let mut i: usize = 0;
        let ghost head: Seq<u8>;
        if n % 2 == 1 {
            bytes.push((flag + 1) * 16 + self.at(0));
            i = 1;
            proof {
                head = seq![(flag + 1) as u8];
            }
        } else {
            bytes.push(flag * 16);
            proof {
                head = seq![flag, 0u8];
            }
        }
        let ghost all = head + self@;
        proof {
            reveal(byte_of);
            assert(all[0] == head[0]);
            assert(all[1] == if n % 2 == 1 {
                self@[0]
            } else {
                0u8
            });
        }
        while i < n
            invariant
                n == self@.len(),
                i <= n,
                (n - i) % 2 == 0,
                all == head + self@,
                1 <= head.len() <= 2,
                i + head.len() == 2 * bytes@.len(),
                forall|j: int| 0 <= j < bytes@.len() ==> #[trigger] bytes@[j] == byte_of(all, j),
            decreases n - i,
        {
            let high: u8 = self.at(i);
            let low: u8 = self.at(i + 1);
            proof {
                reveal(byte_of);
                assert(all[i + head.len()] == high);
                assert(all[i + head.len() + 1] == low);
            }
            bytes.push(high * 16 + low);
            i += 2;
        }
        proof {
            assert(all.len() == 2 * bytes@.len());
            assert(bytes@ =~= pack(all));
        }
        bytes
    }
}

impl<'a> PartialEq for NibbleSlice<'a> {
    /// Two paths are equal when they hold the same nibbles, wherever they lie.
    fn eq(&self, other: &Self) -> (r: bool) {
        let r = self.len() == other.len() && self.starts_with(other);
        proof {
            if self@.len() == other@.len() {
                assert(self@.take(other@.len() as int) =~= self@);
            }
        }
        r
    }
}

impl<'a> Eq for NibbleSlice<'a> {

}

impl<'a> vstd::std_specs::cmp::PartialEqSpecImpl for NibbleSlice<'a> {
    open spec fn obeys_eq_spec() -> bool {
        true
    }

    open spec fn eq_spec(&self, other: &Self) -> bool {
        self@ == other@
    }
}

/// The two nibbles of the byte at place `k`.
pub proof fn lemma_nibbles_of_byte(bytes: Seq<u8>, k: int)
    ensures
        nibble_of(bytes, 2 * k) == bytes[k] / 16,
        nibble_of(bytes, 2 * k + 1) == bytes[k] % 16,
{
    reveal(nibble_of);
}

/// A byte is sixteen times its high nibble and its low nibble.
proof fn lemma_byte_of_halves(b: u8)
    ensures
        b / 16 < 16,
        b % 16 < 16,
        (b / 16) * 16 + b % 16 == b,
{
}

/// The halves of the byte that two nibbles make are the two nibbles.
proof fn lemma_halves_of_byte(high: u8, low: u8)
    requires
        high < 16,
        low < 16,
    ensures
        high * 16 + low < 256,
        (high * 16 + low) / 16 == high,
        (high * 16 + low) % 16 == low,
{
}

/// Splitting bytes into nibbles and packing them again changes nothing.
pub proof fn lemma_pack_nibbles(bytes: Seq<u8>)
    ensures
        pack(nibbles(bytes)) == bytes,
{
    let all = nibbles(bytes);
    assert forall|k: int| 0 <= k < bytes.len() implies byte_of(all, k) == bytes[k] by {
        reveal(byte_of);
        lemma_nibbles_of_byte(bytes, k);
        lemma_byte_of_halves(bytes[k]);
        assert(all[2 * k] == bytes[k] / 16);
        assert(all[2 * k + 1] == bytes[k] % 16);
    }
    assert(pack(all) =~= bytes);
}

/// Packing nibbles into bytes and splitting the bytes again changes nothing,
/// where the nibbles come in pairs.
pub proof fn lemma_nibbles_pack(all: Seq<u8>)
    requires
        all.len() % 2 == 0,
        forall|i: int| 0 <= i < all.len() ==> all[i] < 16,
    ensures
        nibbles(pack(all)) == all,
{
    let bytes = pack(all);
    assert forall|i: int| 0 <= i < all.len() implies nibbles(bytes)[i] == all[i] by {
        let k = i / 2;
        assert(0 <= k < bytes.len());
        assert(i == 2 * k || i == 2 * k + 1);
        reveal(byte_of);
        lemma_nibbles_of_byte(bytes, k);
        lemma_halves_of_byte(all[2 * k], all[2 * k + 1]);
        assert(bytes[k] == all[2 * k] * 16 + all[2 * k + 1]);
    }
    assert(nibbles(bytes) =~= all);
}

/// The flags of a valid encoding, read off its first byte: the nibble that
/// holds them is the leaf flag, worth two, and the flag for an odd length.
proof fn lemma_hex_prefix_flags(first: u8)
    requires
        first / 16 < 4,
    ensures
        ((first / 32) % 2 == 1) <==> first / 16 >= 2,
        first / 16 == (if first / 16 >= 2 { 2int } else { 0int }) + (first / 16) % 2,
{
    assert(first / 32 == (first / 16) / 2) by (bit_vector);
}

/// Hex-prefix decoding loses nothing: for every valid encoding, encoding again
/// the path and the leaf flag that `from_encoded` reads gives the same bytes.
pub proof fn lemma_hex_prefix_round_trip(encoded: Seq<u8>)
    requires
        valid_hex_prefix(encoded),
    ensures
        hex_prefix_encode(hex_prefix_path(encoded), hex_prefix_is_leaf(encoded)) == encoded,
{
    let all = nibbles(encoded);
    let path = hex_prefix_path(encoded);
    let flag: u8 = if hex_prefix_is_leaf(encoded) {
        2
    } else {
        0
    };
    lemma_hex_prefix_flags(encoded[0]);
    lemma_nibbles_of_byte(encoded, 0);
    assert(all[0] == encoded[0] / 16);
    assert(all[1] == encoded[0] % 16);
    if hex_prefix_is_odd(encoded) {
        assert(path.len() == 2 * encoded.len() - 1);
        assert(seq![(flag + 1) as u8] + path =~= all);
    } else {
        assert(path.len() == 2 * encoded.len() - 2);
        assert(seq![flag, 0u8] + path =~= all);
    }
    assert(hex_prefix_encode(path, hex_prefix_is_leaf(encoded)) == pack(all));
    lemma_pack_nibbles(encoded);
}

/// Hex-prefix encoding loses nothing either: `from_encoded` reads from the
/// encoding of a path the path and the flag that went in.
pub proof fn lemma_hex_prefix_decodes(path: Seq<u8>, is_leaf: bool)
    requires
        forall|i: int| 0 <= i < path.len() ==> path[i] < 16,
        path.len() + 2 <= usize::MAX,
    ensures
        spec_from_encoded(hex_prefix_encode(path, is_leaf)) == Ok::<(Seq<u8>, bool), TrieError>(
            (path, is_leaf),
        ),
{
    let flag: u8 = if is_leaf {
        2
    } else {
        0
    };
    let head = if path.len() % 2 == 1 {
        seq![(flag + 1) as u8]
    } else {
        seq![flag, 0u8]
    };
    let all = head + path;
    let encoded = pack(all);
    assert(encoded == hex_prefix_encode(path, is_leaf));
    assert forall|i: int| 0 <= i < all.len() implies all[i] < 16 by {
        if i >= head.len() {
            assert(all[i] == path[i - head.len()]);
        }
    }
    lemma_nibbles_pack(all);
    lemma_nibbles_of_byte(encoded, 0);
    assert(encoded[0] / 16 == all[0]);
    assert(encoded[0] % 16 == all[1]);
    lemma_hex_prefix_flags(encoded[0]);
    assert(all.skip(head.len() as int) =~= path);
}

} // verus!
