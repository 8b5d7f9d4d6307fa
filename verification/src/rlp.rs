//! The length-prefixed envelope that frames every string and every list.

use vstd::prelude::*;
use crate::error::TrieError;

verus! {

/// What the header of an envelope says: the kind, the length of the header and
/// the length of the payload, in that order.
#[derive(Clone, Copy, Debug, PartialEq, Eq, Structural)]
pub enum RLPItem {
    Str(usize, usize),
    List(usize, usize),
}

impl RLPItem {
    /// Whether the envelope is a list.
    pub open spec fn is_list(self) -> bool {
        self is List
    }

    /// How many bytes stand before the payload.
    pub open spec fn header_len(self) -> nat {
        match self {
            RLPItem::Str(h, _) => h as nat,
            RLPItem::List(h, _) => h as nat,
        }
    }

    /// How many bytes the payload has.
    pub open spec fn payload_len(self) -> nat {
        match self {
            RLPItem::Str(_, l) => l as nat,
            RLPItem::List(_, l) => l as nat,
        }
    }
}

/// The number that `bytes` spell in base 256, most significant byte first.
pub open spec fn be_value(bytes: Seq<u8>) -> nat
    decreases bytes.len(),
{
    if bytes.len() == 0 {
        0
    } else {
        be_value(bytes.drop_last()) * 256 + bytes.last() as nat
    }
}

/// A long header: the first byte announces `n` length bytes, which follow it.
pub open spec fn spec_long_header(data: Seq<u8>, n: nat, list: bool) -> Result<RLPItem, TrieError> {
    if data.len() < 1 + n {
        Err(TrieError::MalformedEnvelope)
    } else {
        let len = be_value(data.subrange(1, 1 + n as int));
        if len > u32::MAX {
            Err(TrieError::LengthOverflow)
        } else if list {
            Ok(RLPItem::List((1 + n) as usize, len as usize))
        } else {
            Ok(RLPItem::Str((1 + n) as usize, len as usize))
        }
    }
}

/// The header that `data` begins with.
pub open spec fn spec_decode_length(data: Seq<u8>) -> Result<RLPItem, TrieError> {
    if data.len() == 0 {
        Err(TrieError::MalformedEnvelope)
    } else if data[0] <= 0x7f {
        Ok(RLPItem::Str(0, 1))
    } else if data[0] <= 0xb7 {
        Ok(RLPItem::Str(1, (data[0] - 0x80) as usize))
    } else if data[0] <= 0xbf {
        spec_long_header(data, (data[0] - 0xb7) as nat, false)
    } else if data[0] <= 0xf7 {
        Ok(RLPItem::List(1, (data[0] - 0xc0) as usize))
    } else {
        spec_long_header(data, (data[0] - 0xf7) as nat, true)
    }
}

/// A sequence is worth at least as much as any of its beginnings.
proof fn lemma_be_value_prefix(bytes: Seq<u8>, k: int)
    requires
        0 <= k <= bytes.len(),
    ensures
        be_value(bytes.take(k)) <= be_value(bytes),
    decreases bytes.len() - k,
{
    if k == bytes.len() {
        assert(bytes.take(k) =~= bytes);
    } else {
        lemma_be_value_prefix(bytes, k + 1);
        assert(bytes.take(k + 1).drop_last() =~= bytes.take(k));
    }
}

/// The number that `bytes` spell, if it fits in 32 bits.
pub open spec fn spec_to_u32(bytes: Seq<u8>) -> Option<u32> {
    if be_value(bytes) <= u32::MAX {
        Some(be_value(bytes) as u32)
    } else {
        None
    }
}

/// Reads `slice` as a big-endian number, if that number fits in 32 bits.
pub fn to_u32(slice: &[u8]) -> (res: Option<u32>)
    ensures
        res == spec_to_u32(slice@),
{
    let mut sum: u32 = 0;
    let mut i: usize = 0;
    while i < slice.len()
        invariant
            0 <= i <= slice@.len(),
            sum == be_value(slice@.take(i as int)),
        decreases slice@.len() - i,
    {
        let b: u8 = slice[i];
        proof {
            assert(slice@.take(i + 1).drop_last() =~= slice@.take(i as int));
            lemma_be_value_prefix(slice@, i + 1);
        }
        if sum > 0x00ff_ffff {
            return None;
        }
        sum = sum * 256 + b as u32;
        i += 1;
    }
    proof {
        assert(slice@.take(i as int) =~= slice@);
    }
    Some(sum)
}

/// Reads a header whose first byte announces `n` length bytes.
fn long_header(data: &[u8], n: u8, list: bool) -> (res: Result<RLPItem, TrieError>)
    requires
        1 <= n <= 8,
    ensures
        res == spec_long_header(data@, n as nat, list),
{
    let end: usize = 1 + n as usize;
    if data.len() < end {
        return Err(TrieError::MalformedEnvelope);
    }
    match to_u32(vstd::slice::slice_subrange(data, 1, end)) {
        None => Err(TrieError::LengthOverflow),
        Some(len) => if list {
            Ok(RLPItem::List(end, len as usize))
        } else {
            Ok(RLPItem::Str(end, len as usize))
        },
    }
}

/// Reads the header of the envelope that `data` begins with.
///
/// Only the header is read: the payload may be cut short, which the caller
/// that slices it finds out.
pub fn decode_length(data: &[u8]) -> (res: Result<RLPItem, TrieError>)
    ensures
        res == spec_decode_length(data@),
{
    if data.len() == 0 {
        return Err(TrieError::MalformedEnvelope);
    }
    let first_byte: u8 = data[0];
    if first_byte <= 0x7f {
        Ok(RLPItem::Str(0, 1))
    } else if first_byte <= 0xb7 {
        Ok(RLPItem::Str(1, (first_byte - 0x80) as usize))
    } else if first_byte <= 0xbf {
        long_header(data, first_byte - 0xb7, false)
    } else if first_byte <= 0xf7 {
        Ok(RLPItem::List(1, (first_byte - 0xc0) as usize))
    } else {
        long_header(data, first_byte - 0xf7, true)
    }
}

/// The `width` lowest base-256 digits of `value`, most significant first.
pub open spec fn be_bytes(value: nat, width: nat) -> Seq<u8>
    decreases width,
{
    if width == 0 {
        Seq::empty()
    } else {
        be_bytes(value / 256, (width - 1) as nat).push((value % 256) as u8)
    }
}

/// The header bytes that stand for `item`, by the rule that its header length
/// selects: none for a byte that is its own envelope, one byte for a short
/// payload, and a byte that counts the length bytes before them for a long one.
pub open spec fn encode_header(item: RLPItem) -> Seq<u8> {
    let h = item.header_len();
    let l = item.payload_len();
    if h == 0 {
        Seq::empty()
    } else if h == 1 {
        seq![((if item.is_list() { 0xc0nat } else { 0x80nat }) + l) as u8]
    } else {
        seq![((if item.is_list() { 0xf7nat } else { 0xb7nat }) + (h - 1)) as u8] + be_bytes(
            l,
            (h - 1) as nat,
        )
    }
}

/// Writing a number with as many digits as it was read from gives the digits
/// back.
pub proof fn lemma_be_bytes_of_be_value(bytes: Seq<u8>)
    ensures
        be_bytes(be_value(bytes), bytes.len()) == bytes,
    decreases bytes.len(),
{
    if bytes.len() > 0 {
        lemma_be_bytes_of_be_value(bytes.drop_last());
    }
}

/// Decoding a header loses nothing: from the item that `decode_length` gives
/// for `data`, the header bytes of `data` can be written again.
pub proof fn lemma_decode_length_invertible(data: Seq<u8>)
    ensures
        spec_decode_length(data) matches Ok(item) ==> item.header_len() <= data.len()
            && encode_header(item) == data.take(item.header_len() as int),
{
    if let Ok(item) = spec_decode_length(data) {
        if item.header_len() > 1 {
            lemma_be_bytes_of_be_value(data.subrange(1, item.header_len() as int));
        }
    }
}

/// `found`, then whatever `rest` holds.
pub open spec fn items_then(found: Seq<Seq<u8>>, rest: Result<Seq<Seq<u8>>, TrieError>) -> Result<
    Seq<Seq<u8>>,
    TrieError,
> {
    match rest {
        Ok(more) => Ok(found + more),
        Err(e) => Err(e),
    }
}

/// The payloads of the envelopes that lie back to back in `payload`, in order.
/// With `strings_only`, a list among them is an error.
#[verifier::opaque]
pub open spec fn spec_decode_items(payload: Seq<u8>, strings_only: bool) -> Result<
    Seq<Seq<u8>>,
    TrieError,
>
    decreases payload.len(),
{
    if payload.len() == 0 {
        Ok(Seq::empty())
    } else {
        match spec_decode_length(payload) {
            Err(e) => Err(e),
            Ok(item) => {
                let h = item.header_len() as int;
                let l = item.payload_len() as int;
                if strings_only && item.is_list() {
                    Err(TrieError::MalformedNode)
                } else if h + l > payload.len() {
                    Err(TrieError::TruncatedList)
                } else {
                    items_then(
                        seq![payload.subrange(h, h + l)],
                        spec_decode_items(payload.skip(h + l), strings_only),
                    )
                }
            },
        }
    }
}

/// The items of the list that `data` begins with. Bytes after the list are
/// not looked at.
pub open spec fn spec_decode_list(data: Seq<u8>, strings_only: bool) -> Result<
    Seq<Seq<u8>>,
    TrieError,
> {
    if data.len() == 0 {
        Err(TrieError::EmptyNode)
    } else {
        match spec_decode_length(data) {
            Err(e) => Err(e),
            Ok(RLPItem::Str(_, _)) => Err(TrieError::NotAList),
            Ok(RLPItem::List(h, l)) => if h + l > data.len() {
                Err(TrieError::TruncatedList)
            } else {
                spec_decode_items(data.subrange(h as int, h + l), strings_only)
            },
        }
    }
}

/// Whether `e` is an error of the envelope itself.
pub open spec fn is_envelope_error(e: TrieError) -> bool {
    e == TrieError::MalformedEnvelope || e == TrieError::TruncatedList || e
        == TrieError::LengthOverflow
}

/// Splitting a payload fails only over an envelope, or over a list where a
/// string has to stand.
pub proof fn lemma_decode_items_errors(payload: Seq<u8>, strings_only: bool)
    ensures
        spec_decode_items(payload, strings_only) matches Err(e) ==> is_envelope_error(e) || (
        strings_only && e == TrieError::MalformedNode),
    decreases payload.len(),
{
    reveal(spec_decode_items);
    if payload.len() > 0 {
        if let Ok(item) = spec_decode_length(payload) {
            let next = item.header_len() + item.payload_len();
            if next <= payload.len() {
                lemma_decode_items_errors(payload.skip(next as int), strings_only);
            }
        }
    }
}

/// What each of `slices` holds.
pub open spec fn slices_view(slices: Seq<&[u8]>) -> Seq<Seq<u8>> {
    Seq::new(slices.len(), |i: int| slices[i]@)
}

/// What a decoder hands back, with the slices replaced by what they hold.
pub open spec fn items_view(res: Result<Vec<&[u8]>, TrieError>) -> Result<Seq<Seq<u8>>, TrieError> {
    match res {
        Ok(items) => Ok(slices_view(items@)),
        Err(e) => Err(e),
    }
}

/// The view of a list with one more slice is the view of the list with one
/// more item.
proof fn lemma_slices_view_push(slices: Seq<&[u8]>, last: &[u8])
    ensures
        slices_view(slices.push(last)) == slices_view(slices).push(last@),
{
}

/// Nothing found yet changes nothing.
proof fn lemma_items_then_nothing(rest: Result<Seq<Seq<u8>>, TrieError>)
    ensures
        items_then(Seq::empty(), rest) == rest,
{
    if let Ok(more) = rest {
        assert(Seq::<Seq<u8>>::empty() + more =~= more);
    }
}

/// An item can be counted with what was found or with what follows.
proof fn lemma_items_then_push(
    found: Seq<Seq<u8>>,
    item: Seq<u8>,
    tail: Result<Seq<Seq<u8>>, TrieError>,
)
    ensures
        items_then(found, items_then(seq![item], tail)) == items_then(found.push(item), tail),
{
    if let Ok(more) = tail {
        assert(found + (seq![item] + more) =~= found.push(item) + more);
    }
}

/// One step of the splitting: an empty payload holds nothing, and the first
/// envelope of any other stands before what the rest holds.
pub proof fn lemma_decode_items_step(payload: Seq<u8>, strings_only: bool)
    ensures
        spec_decode_items(payload, strings_only) == (if payload.len() == 0 {
            Ok::<Seq<Seq<u8>>, TrieError>(Seq::empty())
        } else {
            match spec_decode_length(payload) {
                Err(e) => Err(e),
                Ok(item) => {
                    let h = item.header_len() as int;
                    let l = item.payload_len() as int;
                    if strings_only && item.is_list() {
                        Err(TrieError::MalformedNode)
                    } else if h + l > payload.len() {
                        Err(TrieError::TruncatedList)
                    } else {
                        items_then(
                            seq![payload.subrange(h, h + l)],
                            spec_decode_items(payload.skip(h + l), strings_only),
                        )
                    }
                },
            }
        }),
{
    reveal(spec_decode_items);
}

/// Splits `payload` into the envelopes that lie back to back in it and
/// returns their payloads, each a view into `payload`.
pub fn decode_items<'a>(payload: &'a [u8], strings_only: bool) -> (res: Result<
    Vec<&'a [u8]>,
    TrieError,
>)
    ensures
        items_view(res) == spec_decode_items(payload@, strings_only),
{
    let len: usize = payload.len();
    let mut items: Vec<&'a [u8]> = Vec::new();
    let mut offset: usize = 0;
    proof {
        assert(payload@.skip(0) =~= payload@);
        lemma_items_then_nothing(spec_decode_items(payload@, strings_only));
    }
    while offset < len
        invariant
            len == payload@.len(),
            0 <= offset <= len,
            spec_decode_items(payload@, strings_only) == items_then(
                slices_view(items@),
                spec_decode_items(payload@.skip(offset as int), strings_only),
            ),
        decreases len - offset,
    {
        let rest: &'a [u8] = vstd::slice::slice_subrange(payload, offset, len);
        proof {
            assert(rest@ =~= payload@.skip(offset as int));
            lemma_decode_items_step(rest@, strings_only);
        }
        let (o, l): (usize, usize) = match decode_length(rest) {
            Err(e) => {
                return Err(e);
            },
            Ok(RLPItem::Str(o, l)) => (o, l),
            Ok(RLPItem::List(o, l)) => {
                if strings_only {
                    return Err(TrieError::MalformedNode);
                }
                (o, l)
            },
        };
        if o > rest.len() || l > rest.len() - o {
            return Err(TrieError::TruncatedList);
        }
        let item: &'a [u8] = vstd::slice::slice_subrange(rest, o, o + l);
        proof {
            let tail = spec_decode_items(rest@.skip(o + l), strings_only);
            assert(rest@.skip(o + l) =~= payload@.skip(offset + o + l));
            lemma_items_then_push(slices_view(items@), item@, tail);
            lemma_slices_view_push(items@, item);
        }
        items.push(item);
        offset = offset + o + l;
    }
    proof {
        lemma_decode_items_step(payload@.skip(offset as int), strings_only);
        assert(slices_view(items@) + Seq::<Seq<u8>>::empty() =~= slices_view(items@));
    }
    Ok(items)
}

/// Decodes the list that `data` begins with and returns the payloads of its
/// items, each a view into `data`.
///
/// With `strings_only` every item has to be a string; otherwise an item that
/// is itself a list is handed back by its payload like any other.
pub fn decode_list<'a>(data: &'a [u8], strings_only: bool) -> (res: Result<
    Vec<&'a [u8]>,
    TrieError,
>)
    ensures
        items_view(res) == spec_decode_list(data@, strings_only),
{
    if data.len() == 0 {
        return Err(TrieError::EmptyNode);
    }
    match decode_length(data) {
        Err(e) => Err(e),
        Ok(RLPItem::Str(_, _)) => Err(TrieError::NotAList),
        Ok(RLPItem::List(offset, len)) => {
            if offset > data.len() || len > data.len() - offset {
                return Err(TrieError::TruncatedList);
            }
            decode_items(vstd::slice::slice_subrange(data, offset, offset + len), strings_only)
        },
    }
}

} // verus!
