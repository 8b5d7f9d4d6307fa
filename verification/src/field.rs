//! The fields of a record: numbers, digests and addresses of a fixed width.

use vstd::prelude::*;
use crate::error::TrieError;
use crate::rlp::be_value;

verus! {

/// `bytes` behind as many zero bytes as fill `width`.
pub open spec fn spec_left_pad(bytes: Seq<u8>, width: nat) -> Seq<u8> {
    Seq::new((width - bytes.len()) as nat, |i: int| 0u8) + bytes
}

/// A number of at most `width` bytes, at its full width.
pub open spec fn spec_number_field(bytes: Seq<u8>, width: nat) -> Result<Seq<u8>, TrieError> {
    if bytes.len() <= width {
        Ok(spec_left_pad(bytes, width))
    } else {
        Err(TrieError::IncorrectFieldLen)
    }
}

/// A field that has to be `width` bytes long.
pub open spec fn spec_fixed_field(bytes: Seq<u8>, width: nat) -> Result<Seq<u8>, TrieError> {
    if bytes.len() == width {
        Ok(bytes)
    } else {
        Err(TrieError::IncorrectFieldLen)
    }
}

/// What a field reader hands back, with the array replaced by what it holds.
pub open spec fn field_view<const N: usize>(res: Result<[u8; N], TrieError>) -> Result<
    Seq<u8>,
    TrieError,
> {
    match res {
        Ok(field) => Ok(field@),
        Err(e) => Err(e),
    }
}

/// Zero bytes in front do not change the number that bytes spell.
pub proof fn lemma_left_pad_keeps_value(bytes: Seq<u8>, width: nat)
    requires
        bytes.len() <= width,
    ensures
        be_value(spec_left_pad(bytes, width)) == be_value(bytes),
    decreases bytes.len(),
{
    let padded = spec_left_pad(bytes, width);
    if bytes.len() == 0 {
        lemma_zeros_are_zero(padded);
    } else {
        lemma_left_pad_keeps_value(bytes.drop_last(), (width - 1) as nat);
        assert(padded.drop_last() =~= spec_left_pad(bytes.drop_last(), (width - 1) as nat));
    }
}

/// Zero bytes spell zero.
proof fn lemma_zeros_are_zero(zeros: Seq<u8>)
    requires
        forall|i: int| 0 <= i < zeros.len() ==> zeros[i] == 0,
    ensures
        be_value(zeros) == 0,
    decreases zeros.len(),
{
    if zeros.len() > 0 {
        lemma_zeros_are_zero(zeros.drop_last());
    }
}

/// Reads a big-endian number of at most `N` bytes into `N` bytes.
pub fn number_field<const N: usize>(bytes: &[u8]) -> (res: Result<[u8; N], TrieError>)
    ensures
        field_view(res) == spec_number_field(bytes@, N as nat),
{
    let len: usize = bytes.len();
    if len > N {
        return Err(TrieError::IncorrectFieldLen);
    }
    let mut field: [u8; N] = [0u8;N];
    let shift: usize = N - len;
    let mut i: usize = 0;
    while i < len
        invariant
            0 <= i <= len,
            len == bytes@.len(),
            shift + len == N,
            forall|j: int| 0 <= j < shift ==> field@[j] == 0,
            forall|j: int| 0 <= j < i ==> field@[shift + j] == bytes@[j],
        decreases len - i,
    {
        field[shift + i] = bytes[i];
        i += 1;
    }
    proof {
        assert(field@ =~= spec_left_pad(bytes@, N as nat));
    }
    Ok(field)
}

/// Reads a field that has to be `N` bytes long.
pub fn fixed_field<const N: usize>(bytes: &[u8]) -> (res: Result<[u8; N], TrieError>)
    ensures
        field_view(res) == spec_fixed_field(bytes@, N as nat),
{
    if bytes.len() != N {
        return Err(TrieError::IncorrectFieldLen);
    }
    proof {
        assert(spec_left_pad(bytes@, N as nat) =~= bytes@);
    }
    number_field::<N>(bytes)
}

} // verus!
