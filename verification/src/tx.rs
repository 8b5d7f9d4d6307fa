//! Transfers between accounts.

use vstd::prelude::*;
use crate::error::TrieError;
use crate::field::{fixed_field, number_field, spec_fixed_field, spec_number_field};
use crate::rlp::{decode_list, spec_decode_list};

verus! {

/// A transfer of `value` from the account `from` to the account `to`. The
/// numbers are big-endian at their full width of 256 bits.
#[derive(Debug, Clone, Copy, PartialEq, Eq)]
pub struct Tx {
    pub to: [u8; 20],
    pub value: [u8; 32],
    pub nonce: [u8; 32],
    pub from: [u8; 20],
}

/// A transfer as its sender signs it: without the sender.
#[derive(Debug, Clone, Copy, PartialEq, Eq)]
pub struct UnsignedTx {
    pub to: [u8; 20],
    pub value: [u8; 32],
    pub nonce: [u8; 32],
}

/// A transfer as plain values.
pub struct TxView {
    pub to: Seq<u8>,
    pub value: Seq<u8>,
    pub nonce: Seq<u8>,
    pub from: Seq<u8>,
}

impl View for Tx {
    type V = TxView;

    open spec fn view(&self) -> TxView {
        TxView { to: self.to@, value: self.value@, nonce: self.nonce@, from: self.from@ }
    }
}

/// The transfer that the fields `items` stand for: receiver, value, nonce and
/// sender, in this order. Fields after these are not looked at.
pub open spec fn spec_tx_of_items(items: Seq<Seq<u8>>) -> Result<TxView, TrieError> {
    if items.len() < 4 {
        Err(TrieError::IncorrectListLen)
    } else {
        match (
            spec_fixed_field(items[0], 20),
            spec_number_field(items[1], 32),
            spec_number_field(items[2], 32),
            spec_fixed_field(items[3], 20),
        ) {
            (Ok(to), Ok(value), Ok(nonce), Ok(from)) => Ok(TxView { to, value, nonce, from }),
            _ => Err(TrieError::IncorrectFieldLen),
        }
    }
}

/// The transfer that `data` encodes: a list of strings, read as
/// `spec_tx_of_items` says.
pub open spec fn spec_tx_from_rlp(data: Seq<u8>) -> Result<TxView, TrieError> {
    match spec_decode_list(data, true) {
        Err(e) => Err(e),
        Ok(items) => spec_tx_of_items(items),
    }
}

/// What the decoder hands back, with the transfer replaced by its view.
pub open spec fn tx_result_view(res: Result<Tx, TrieError>) -> Result<TxView, TrieError> {
    match res {
        Ok(tx) => Ok(tx@),
        Err(e) => Err(e),
    }
}

impl Tx {
    /// Decodes a transfer.
    pub fn from_rlp(data: &[u8]) -> (res: Result<Tx, TrieError>)
        ensures
            tx_result_view(res) == spec_tx_from_rlp(data@),
    {
        let items: Vec<&[u8]> = decode_list(data, true)?;
        if items.len() < 4 {
            return Err(TrieError::IncorrectListLen);
        }
        let to: [u8; 20] = fixed_field::<20>(items[0])?;
        let value: [u8; 32] = number_field::<32>(items[1])?;
        let nonce: [u8; 32] = number_field::<32>(items[2])?;
        let from: [u8; 20] = fixed_field::<20>(items[3])?;
        Ok(Tx { to, value, nonce, from })
    }
}

} // verus!
