//! The record that the trie stores for an account.

use vstd::prelude::*;
use crate::error::TrieError;
use crate::field::{fixed_field, number_field, spec_fixed_field, spec_number_field};
use crate::rlp::{decode_list, slices_view, spec_decode_list};

verus! {

/// An account. The numbers are big-endian at their full width of 256 bits.
#[derive(Debug, Clone, Copy, PartialEq, Eq)]
pub struct BasicAccount {
    pub nonce: [u8; 32],
    pub balance: [u8; 32],
    pub storage_root: [u8; 32],
    pub code_hash: [u8; 32],
}

/// An account as plain values.
pub struct AccountView {
    pub nonce: Seq<u8>,
    pub balance: Seq<u8>,
    pub storage_root: Seq<u8>,
    pub code_hash: Seq<u8>,
}

impl View for BasicAccount {
    type V = AccountView;

    open spec fn view(&self) -> AccountView {
        AccountView {
            nonce: self.nonce@,
            balance: self.balance@,
            storage_root: self.storage_root@,
            code_hash: self.code_hash@,
        }
    }
}

/// The account that the fields `items` stand for: nonce, balance, storage
/// root and code hash, in this order. Fields after these are not looked at.
pub open spec fn spec_account_of_items(items: Seq<Seq<u8>>) -> Result<AccountView, TrieError> {
    if items.len() < 4 {
        Err(TrieError::IncorrectListLen)
    } else {
        match (
            spec_number_field(items[0], 32),
            spec_number_field(items[1], 32),
            spec_fixed_field(items[2], 32),
            spec_fixed_field(items[3], 32),
        ) {
            (Ok(nonce), Ok(balance), Ok(storage_root), Ok(code_hash)) => Ok(
                AccountView { nonce, balance, storage_root, code_hash },
            ),
            _ => Err(TrieError::IncorrectFieldLen),
        }
    }
}

/// The account that `data` encodes: a list of strings, read as
/// `spec_account_of_items` says.
pub open spec fn spec_account_from_rlp(data: Seq<u8>) -> Result<AccountView, TrieError> {
    match spec_decode_list(data, true) {
        Err(e) => Err(e),
        Ok(items) => spec_account_of_items(items),
    }
}

/// The account that `data` encodes where the record has to be whole: a list
/// of four strings and no more, read as `spec_account_of_items` says.
pub open spec fn spec_account_decode(data: Seq<u8>) -> Result<AccountView, TrieError> {
    match spec_decode_list(data, true) {
        Err(e) => Err(e),
        Ok(items) => if items.len() != 4 {
            Err(TrieError::IncorrectListLen)
        } else {
            spec_account_of_items(items)
        },
    }
}

/// What the decoder hands back, with the account replaced by its view.
pub open spec fn account_result_view(res: Result<BasicAccount, TrieError>) -> Result<
    AccountView,
    TrieError,
> {
    match res {
        Ok(account) => Ok(account@),
        Err(e) => Err(e),
    }
}

impl BasicAccount {
    /// Reads the four fields of an account off the front of `items`.
    fn of_items(items: &Vec<&[u8]>) -> (res: Result<BasicAccount, TrieError>)
        requires
            items@.len() >= 4,
        ensures
            account_result_view(res) == spec_account_of_items(slices_view(items@)),
    {
        let nonce: [u8; 32] = number_field::<32>(items[0])?;
        let balance: [u8; 32] = number_field::<32>(items[1])?;
        let storage_root: [u8; 32] = fixed_field::<32>(items[2])?;
        let code_hash: [u8; 32] = fixed_field::<32>(items[3])?;
        Ok(BasicAccount { nonce, balance, storage_root, code_hash })
    }

    /// Decodes an account from the value that the trie holds for it.
    pub fn from_rlp(data: &[u8]) -> (res: Result<BasicAccount, TrieError>)
        ensures
            account_result_view(res) == spec_account_from_rlp(data@),
    {
        let items: Vec<&[u8]> = decode_list(data, true)?;
        if items.len() < 4 {
            return Err(TrieError::IncorrectListLen);
        }
        BasicAccount::of_items(&items)
    }

    /// Decodes an account from a record of exactly four fields. A record
    /// with a fifth field, which `from_rlp` passes over, is refused.
    pub fn decode(data: &[u8]) -> (res: Result<BasicAccount, TrieError>)
        ensures
            account_result_view(res) == spec_account_decode(data@),
    {
        let items: Vec<&[u8]> = decode_list(data, true)?;
        if items.len() != 4 {
            return Err(TrieError::IncorrectListLen);
        }
        BasicAccount::of_items(&items)
    }
}

} // verus!
