//! A block: the transfers that it makes and the nodes that prove the state
//! of the accounts which they touch.

use vstd::prelude::*;
use crate::account::{spec_account_decode, BasicAccount};
use crate::error::TrieError;
use crate::keccak_hasher::keccak256_digest;
use crate::trie::{key_path, spec_lookup, Trie};
use crate::tx::{Tx, TxView};

verus! {

/// What a block brings.
#[derive(Debug, Clone, PartialEq, Eq)]
pub struct BlockData {
    pub txes: Vec<Tx>,
    pub proof_nodes: Vec<Vec<u8>>,
}

/// A block as plain values.
pub struct BlockDataView {
    pub txes: Seq<TxView>,
    pub proof_nodes: Seq<Seq<u8>>,
}

impl View for BlockData {
    type V = BlockDataView;

    open spec fn view(&self) -> BlockDataView {
        BlockDataView {
            txes: Seq::new(self.txes@.len(), |i: int| self.txes@[i]@),
            proof_nodes: Seq::new(self.proof_nodes@.len(), |i: int| self.proof_nodes@[i]@),
        }
    }
}

/// The store that holds `nodes`, each under its digest. Of two nodes with one
/// digest it holds the later.
pub open spec fn spec_store_of(nodes: Seq<Seq<u8>>) -> Map<Seq<u8>, Seq<u8>>
    decreases nodes.len(),
{
    if nodes.len() == 0 {
        Map::empty()
    } else {
        spec_store_of(nodes.drop_last()).insert(keccak256_digest(nodes.last()), nodes.last())
    }
}

/// What a transfer needs of the state under `root`: the sender has an account
/// whose record is four fields that can be decoded, and the receiver has an
/// account.
pub open spec fn spec_check_tx(store: Map<Seq<u8>, Seq<u8>>, root: Seq<u8>, tx: TxView) -> Result<
    (),
    TrieError,
> {
    match spec_lookup(store, root, key_path(tx.from)) {
        Err(e) => Err(e),
        Ok(sender) => match spec_account_decode(sender) {
            Err(e) => Err(e),
            Ok(_) => match spec_lookup(store, root, key_path(tx.to)) {
                Err(e) => Err(e),
                Ok(_) => Ok(()),
            },
        },
    }
}

/// The first error among the transfers `txes`, taken in order.
pub open spec fn spec_check_txes(
    store: Map<Seq<u8>, Seq<u8>>,
    root: Seq<u8>,
    txes: Seq<TxView>,
) -> Result<(), TrieError>
    decreases txes.len(),
{
    if txes.len() == 0 {
        Ok(())
    } else {
        match spec_check_tx(store, root, txes[0]) {
            Err(e) => Err(e),
            Ok(_) => spec_check_txes(store, root, txes.skip(1)),
        }
    }
}

/// The root of the state after a block that is run on the state under
/// `pre_state_root`: the same root, where every transfer of the block passes
/// `spec_check_tx` against the nodes of the block.
pub open spec fn spec_process_block(pre_state_root: Seq<u8>, block: BlockDataView) -> Result<
    Seq<u8>,
    TrieError,
> {
    match spec_check_txes(spec_store_of(block.proof_nodes), pre_state_root, block.txes) {
        Ok(_) => Ok(pre_state_root),
        Err(e) => Err(e),
    }
}

/// What a block run hands back, with the root replaced by its bytes.
pub open spec fn root_result_view(res: Result<[u8; 32], TrieError>) -> Result<Seq<u8>, TrieError> {
    match res {
        Ok(root) => Ok(root@),
        Err(e) => Err(e),
    }
}

/// Checks a transfer against the state under `root`.
///
/// The sender's record is read by `BasicAccount::decode`, the decoder of this
/// library: a list of exactly four strings, the numbers of at most 32 bytes
/// and the two digests of 32 bytes each. It asks no more of a number than
/// its length, so a number written with zero bytes in front is taken.
pub fn check_tx(trie: &Trie, root: &[u8; 32], tx: &Tx) -> (res: Result<(), TrieError>)
    ensures
        res == spec_check_tx(trie@, root@, tx@),
{
    let value: Vec<u8> = trie.get(root, tx.from.as_slice())?;
    BasicAccount::decode(value.as_slice())?;
    trie.get(root, tx.to.as_slice())?;
    Ok(())
}

/// Runs a block on the state under `pre_state_root` and returns the root of
/// the state after it.
///
/// The nodes of the block are filed in a store of their own, and every
/// transfer is checked against them, in order. The transfers change nothing
/// yet: the state after the block is the state before it.
pub fn process_block(pre_state_root: [u8; 32], block_data: &BlockData) -> (res: Result<
    [u8; 32],
    TrieError,
>)
    ensures
        root_result_view(res) == spec_process_block(pre_state_root@, block_data@),
{
    let ghost block = block_data@;
    let proof_nodes_count: usize = block_data.proof_nodes.len();
    let mut trie = Trie::with_capacity(proof_nodes_count);
    let mut i: usize = 0;
    while i < proof_nodes_count
        invariant
            0 <= i <= proof_nodes_count,
            proof_nodes_count == block_data.proof_nodes@.len(),
            block == block_data@,
            trie@ == spec_store_of(block.proof_nodes.take(i as int)),
        decreases proof_nodes_count - i,
    {
        proof {
            let upto = block.proof_nodes.take(i + 1);
            assert(upto.drop_last() =~= block.proof_nodes.take(i as int));
        }
        trie.db_insert(block_data.proof_nodes[i].as_slice());
        i += 1;
    }
    proof {
        assert(block.proof_nodes.take(i as int) =~= block.proof_nodes);
        assert(block.txes.skip(0) =~= block.txes);
    }
    let txes_count: usize = block_data.txes.len();
    let mut k: usize = 0;
    while k < txes_count
        invariant
            0 <= k <= txes_count,
            txes_count == block_data.txes@.len(),
            block == block_data@,
            trie@ == spec_store_of(block.proof_nodes),
            spec_check_txes(trie@, pre_state_root@, block.txes) == spec_check_txes(
                trie@,
                pre_state_root@,
                block.txes.skip(k as int),
            ),
        decreases txes_count - k,
    {
        proof {
            assert(block.txes.skip(k as int).skip(1) =~= block.txes.skip(k + 1));
        }
        check_tx(&trie, &pre_state_root, &block_data.txes[k])?;
        k += 1;
    }
    Ok(pre_state_root)
}

} // verus!
