//! Verification of a lookup against a chain of nodes: the nodes from the root
//! to the key come in order, and each is held against what the one before it,
//! or the root, commits to.

use vstd::prelude::*;
use vstd::slice::slice_to_vec;
use crate::blockdata::root_result_view;
use crate::bytes::bytes_eq;
use crate::error::TrieError;
use crate::keccak_hasher::{keccak256, keccak256_digest};
use crate::rlp::{decode_list, items_view, slices_view, spec_decode_list};
use crate::trie::{
    content_addressed, key_path, spec_child_ref, spec_lookup, value_result_view, ChildRefView,
    DIGEST_LEN, HASHED_NULL_NODE_BYTES, NULL_RLP,
};
use crate::trie::nibbleslice::NibbleSlice;
use crate::trie::node::{
    lemma_decode_node_errors, spec_decode_node, spec_decode_node_or_empty, Node, NodeView,
};
use crate::trie::walk::{lemma_step_shortens, spec_step, step, Step, StepView};

verus! {

/// Splits the list that a block brings into its nodes, each a view into
/// `data`.
pub fn decode_proof<'a>(data: &'a [u8]) -> (res: Result<Vec<&'a [u8]>, TrieError>)
    ensures
        items_view(res) == spec_decode_list(data@, false),
{
    decode_list(data, false)
}

/// Whether `node` is what `expected` commits to: a reference as long as a
/// digest, or longer, commits to the node that hashes to it, and a shorter
/// one is the node itself.
pub open spec fn spec_is_authentic(expected: Seq<u8>, node: Seq<u8>) -> bool {
    if expected.len() < DIGEST_LEN {
        node == expected
    } else {
        keccak256_digest(node) == expected
    }
}

/// The node that the walk goes on with, where it expects `expected` and
/// `nodes` are left: the first of `nodes`, if there is one and `expected`
/// commits to it. Whatever `expected` is, a node has to be read and found
/// authentic before it is decoded; the empty node is no exception.
pub open spec fn spec_next_node(expected: Seq<u8>, nodes: Seq<Seq<u8>>) -> Result<
    NodeView,
    TrieError,
> {
    if nodes.len() == 0 {
        Err(TrieError::IncompleteProof)
    } else if !spec_is_authentic(expected, nodes[0]) {
        Err(TrieError::ProofHashMismatch)
    } else {
        spec_decode_node_or_empty(nodes[0])
    }
}

/// The value that the walk along `path` ends at when it takes its nodes from
/// `nodes`, one after the other, starting from what `expected` commits to; or
/// the error that stops it.
pub open spec fn spec_verify_proof(expected: Seq<u8>, path: Seq<u8>, nodes: Seq<Seq<u8>>) -> Result<
    Seq<u8>,
    TrieError,
>
    decreases nodes.len(),
{
    match spec_next_node(expected, nodes) {
        Err(e) => Err(e),
        Ok(node) => match spec_step(node, path) {
            StepView::Found(value) => Ok(value),
            StepView::Failed(e) => Err(e),
            StepView::Descend(rest, child) => spec_verify_proof(child, rest, nodes.skip(1)),
        },
    }
}

/// Whether `node` is what `expected` commits to.
pub fn is_authentic(expected: &[u8], node: &[u8]) -> (b: bool)
    ensures
        b == spec_is_authentic(expected@, node@),
{
    if expected.len() < DIGEST_LEN {
        bytes_eq(node, expected)
    } else {
        let digest: [u8; 32] = keccak256(node);
        bytes_eq(digest.as_slice(), expected)
    }
}

/// Looks up the key with path `key_path` under the root `root_hash`, reading
/// the nodes of `proof_decoded` in order.
///
/// No node is decoded before it is found authentic, so a value comes back
/// only through nodes that the root commits to.
pub fn verify_proof(root_hash: [u8; 32], key_path: NibbleSlice, proof_decoded: &Vec<&[u8]>) -> (res:
    Result<Vec<u8>, TrieError>)
    ensures
        value_result_view(res) == spec_verify_proof(
            root_hash@,
            key_path@,
            slices_view(proof_decoded@),
        ),
{
    let ghost nodes = slices_view(proof_decoded@);
    let mut want_hash: &[u8] = root_hash.as_slice();
    let mut path = key_path;
    let mut i: usize = 0;
    proof {
        assert(nodes.skip(0) =~= nodes);
    }
    loop
        invariant
            0 <= i <= proof_decoded@.len(),
            nodes == slices_view(proof_decoded@),
            spec_verify_proof(root_hash@, key_path@, nodes) == spec_verify_proof(
                want_hash@,
                path@,
                nodes.skip(i as int),
            ),
        decreases proof_decoded@.len() - i,
    {
        if i >= proof_decoded.len() {
            return Err(TrieError::IncompleteProof);
        }
        let serialized_node: &[u8] = proof_decoded[i];
        proof {
            assert(nodes.skip(i as int)[0] == serialized_node@);
            assert(nodes.skip(i as int).skip(1) =~= nodes.skip(i + 1));
        }
        if !is_authentic(want_hash, serialized_node) {
            return Err(TrieError::ProofHashMismatch);
        }
        let node: Node = Node::from_rlp(serialized_node)?;
        match step(node, path) {
            Step::Found(value) => {
                return Ok(slice_to_vec(value));
            },
            Step::Failed(e) => {
                return Err(e);
            },
            Step::Descend(rest, child) => {
                path = rest;
                want_hash = child;
                i += 1;
            },
        }
    }
}

/// The root of the state that `process_block` verifies against.
pub const ROOT_HASH: [u8; 32] = [
    101, 183, 185, 204, 183, 164, 216, 40, 152, 110, 72, 142, 8, 27, 193, 27, 250, 94, 246, 20, 31,
    176, 107, 10, 242, 233, 160, 189, 162, 115, 167, 83,
];

/// The address of the account that `process_block` looks up.
pub const ADDRESS: [u8; 20] = [
    108, 223, 57, 216, 215, 85, 56, 160, 202, 215, 33, 242, 66, 118, 236, 72, 86, 46, 92, 144,
];

/// How often `process_block` verifies its chain.
pub const ROUNDS: usize = 40;

/// The account of `ADDRESS` under `ROOT_HASH`, read through the chain of
/// nodes that the block `data` lists.
pub open spec fn spec_verify_block(data: Seq<u8>) -> Result<Seq<u8>, TrieError> {
    match spec_decode_list(data, false) {
        Err(e) => Err(e),
        Ok(nodes) => spec_verify_proof(ROOT_HASH@, key_path(ADDRESS@), nodes),
    }
}

/// The root of the state after the block `data`: the root before it, where
/// the chain of the block verifies.
pub open spec fn spec_process_block(pre_state_root: Seq<u8>, data: Seq<u8>) -> Result<
    Seq<u8>,
    TrieError,
> {
    match spec_verify_block(data) {
        Ok(_) => Ok(pre_state_root),
        Err(e) => Err(e),
    }
}

/// Runs a block that is one chain of nodes: verifies, `ROUNDS` times over,
/// that the chain leads from `ROOT_HASH` to the account of `ADDRESS`, and
/// returns the root of the state after the block, which is the root before
/// it.
pub fn process_block(pre_state_root: [u8; 32], block_data_bytes: &[u8]) -> (res: Result<
    [u8; 32],
    TrieError,
>)
    ensures
        root_result_view(res) == spec_process_block(pre_state_root@, block_data_bytes@),
{
    let address_hash: [u8; 32] = keccak256(ADDRESS.as_slice());
    let path = NibbleSlice::new(address_hash.as_slice());
    let proof_decoded: Vec<&[u8]> = decode_proof(block_data_bytes)?;
    let mut i: usize = 0;
    while i < ROUNDS
        invariant
            0 <= i <= ROUNDS,
            path@ == key_path(ADDRESS@),
            spec_decode_list(block_data_bytes@, false) == Ok::<Seq<Seq<u8>>, TrieError>(
                slices_view(proof_decoded@),
            ),
            i > 0 ==> spec_verify_block(block_data_bytes@) is Ok,
        decreases ROUNDS - i,
    {
        verify_proof(ROOT_HASH, path, &proof_decoded)?;
        i += 1;
    }
    Ok(pre_state_root)
}

/// The encoding that a lookup in `store` reads for `node_ref`: none for the
/// empty node, which is known without one, and none for a digest that the
/// store lacks.
pub open spec fn spec_encoded_node(store: Map<Seq<u8>, Seq<u8>>, node_ref: Seq<u8>) -> Option<
    Seq<u8>,
> {
    match spec_child_ref(node_ref) {
        ChildRefView::Empty => None,
        ChildRefView::Inline(encoded) => Some(encoded),
        ChildRefView::Digest(digest) => if store.dom().contains(digest) {
            Some(store[digest])
        } else {
            None
        },
    }
}

/// The nodes that a lookup in `store` reads on its way from `node_ref` along
/// `path`, in the order in which it reads them. A node that its parent holds
/// in full counts like one that the store holds.
pub open spec fn spec_path_nodes(
    store: Map<Seq<u8>, Seq<u8>>,
    node_ref: Seq<u8>,
    path: Seq<u8>,
) -> Seq<Seq<u8>>
    decreases path.len(),
{
    match spec_encoded_node(store, node_ref) {
        None => Seq::empty(),
        Some(encoded) => seq![encoded] + (match spec_decode_node(encoded) {
            Err(_) => Seq::empty(),
            Ok(node) => match spec_step(node, path) {
                StepView::Descend(rest, child) => spec_path_nodes(store, child, rest),
                _ => Seq::empty(),
            },
        }),
    }
}

/// A lookup reads at most one node for each nibble of the path, and one more:
/// every node but the last takes at least a nibble off the path.
pub proof fn lemma_path_nodes_bounded(
    store: Map<Seq<u8>, Seq<u8>>,
    node_ref: Seq<u8>,
    path: Seq<u8>,
)
    ensures
        spec_path_nodes(store, node_ref, path).len() <= path.len() + 1,
    decreases path.len(),
{
    if let Some(encoded) = spec_encoded_node(store, node_ref) {
        if let Ok(node) = spec_decode_node(encoded) {
            if let StepView::Descend(rest, child) = spec_step(node, path) {
                lemma_step_shortens(node, path);
                lemma_path_nodes_bounded(store, child, rest);
            }
        }
    }
}

/// How the verification of a chain ends that was cut from a store, given how
/// the lookup in the store ends: alike, but that the chain lacks what the
/// lookup did not read. That is a node which the store lacks, and the empty
/// node, which a lookup knows by its name alone and a chain has to show.
pub open spec fn spec_chain_outcome(lookup: Result<Seq<u8>, TrieError>) -> Result<
    Seq<u8>,
    TrieError,
> {
    if lookup == Err::<Seq<u8>, TrieError>(TrieError::NodeNotFound) || lookup == Err::<
        Seq<u8>,
        TrieError,
    >(TrieError::KeyNotPresent) {
        Err(TrieError::IncompleteProof)
    } else {
        lookup
    }
}

/// The well-known digest is the digest of the empty string's encoding. This
/// holds of Keccak-256; who needs it calls `KeccakHasher::hash` on `NULL_RLP`
/// and looks at what comes back.
pub open spec fn empty_digest_is_genuine() -> bool {
    keccak256_digest(NULL_RLP@) == HASHED_NULL_NODE_BYTES@
}

/// The encoding of the empty string is no node.
pub proof fn lemma_null_rlp_is_no_node()
    ensures
        spec_decode_node(NULL_RLP@) == Err::<NodeView, TrieError>(TrieError::NotAList),
        spec_child_ref(NULL_RLP@) is Empty,
{
    assert(NULL_RLP@.len() == 1);
    assert(NULL_RLP@[0] == 0x80);
}

/// A lookup in a store and the verification of the nodes that the lookup
/// reads, in its order, return the same value.
///
/// Where the lookup fails, they fail alike, given that the well-known digest
/// is genuine; the exceptions are those of `spec_chain_outcome`.
pub proof fn lemma_verify_proof_agrees_with_lookup(
    store: Map<Seq<u8>, Seq<u8>>,
    root: Seq<u8>,
    path: Seq<u8>,
)
    requires
        content_addressed(store),
    ensures
        spec_lookup(store, root, path) is Ok ==> spec_verify_proof(
            root,
            path,
            spec_path_nodes(store, root, path),
        ) == spec_lookup(store, root, path),
        empty_digest_is_genuine() ==> spec_verify_proof(
            root,
            path,
            spec_path_nodes(store, root, path),
        ) == spec_chain_outcome(spec_lookup(store, root, path)),
    decreases path.len(),
{
    let nodes = spec_path_nodes(store, root, path);
    lemma_null_rlp_is_no_node();
    if let Some(encoded) = spec_encoded_node(store, root) {
        assert(nodes[0] == encoded);
        assert(spec_is_authentic(root, encoded));
        assert(empty_digest_is_genuine() ==> encoded != NULL_RLP@);
        lemma_decode_node_errors(encoded);
        if let Ok(node) = spec_decode_node(encoded) {
            assert(spec_decode_node_or_empty(encoded) == spec_decode_node(encoded));
            if let StepView::Descend(rest, child) = spec_step(node, path) {
                lemma_step_shortens(node, path);
                lemma_verify_proof_agrees_with_lookup(store, child, rest);
                assert(nodes.skip(1) =~= spec_path_nodes(store, child, rest));
            }
        }
    }
}

/// `store` holds the empty string's encoding where the empty node is looked
/// for: under the well-known digest, which is its own.
pub open spec fn holds_empty_node(store: Map<Seq<u8>, Seq<u8>>) -> bool {
    &&& empty_digest_is_genuine()
    &&& store.dom().contains(HASHED_NULL_NODE_BYTES@)
    &&& store[HASHED_NULL_NODE_BYTES@] == NULL_RLP@
}

/// What a chain of nodes verifies, a store that holds each of these nodes
/// under its digest, and the empty node under its own, looks up: the same
/// value, or the same error. This says nothing of a chain that is cut short
/// or that holds a node in the wrong place.
pub proof fn lemma_lookup_agrees_with_verify_proof(
    store: Map<Seq<u8>, Seq<u8>>,
    root: Seq<u8>,
    path: Seq<u8>,
    nodes: Seq<Seq<u8>>,
)
    requires
        holds_empty_node(store),
        forall|i: int|
            0 <= i < nodes.len() ==> store.dom().contains(keccak256_digest(#[trigger] nodes[i]))
                && store[keccak256_digest(nodes[i])] == nodes[i],
    ensures
        spec_verify_proof(root, path, nodes) != Err::<Seq<u8>, TrieError>(
            TrieError::IncompleteProof,
        ) && spec_verify_proof(root, path, nodes) != Err::<Seq<u8>, TrieError>(
            TrieError::ProofHashMismatch,
        ) ==> spec_lookup(store, root, path) == spec_verify_proof(root, path, nodes),
    decreases nodes.len(),
{
    lemma_null_rlp_is_no_node();
    if nodes.len() > 0 && spec_is_authentic(root, nodes[0]) {
        let first = nodes[0];
        assert(root.len() >= DIGEST_LEN ==> store[root] == first);
        assert(first == NULL_RLP@ <==> spec_child_ref(root) is Empty);
        if let Ok(node) = spec_decode_node_or_empty(first) {
            if let StepView::Descend(rest, child) = spec_step(node, path) {
                let left = nodes.skip(1);
                assert forall|i: int| 0 <= i < left.len() implies store.dom().contains(
                    keccak256_digest(#[trigger] left[i]),
                ) && store[keccak256_digest(left[i])] == left[i] by {
                    assert(left[i] == nodes[i + 1]);
                }
                lemma_lookup_agrees_with_verify_proof(store, child, rest, left);
            }
        }
    }
}

/// What the walk holds entry `i` of `nodes` against, if it gets that far: it
/// starts from `expected` with `path` to go, and every entry before `i` has to
/// be authentic and to lead on to a child.
pub open spec fn spec_expected_at(
    expected: Seq<u8>,
    path: Seq<u8>,
    nodes: Seq<Seq<u8>>,
    i: nat,
) -> Option<Seq<u8>>
    decreases i,
{
    if nodes.len() == 0 {
        None
    } else if i == 0 {
        Some(expected)
    } else if !spec_is_authentic(expected, nodes[0]) {
        None
    } else {
        match spec_decode_node_or_empty(nodes[0]) {
            Err(_) => None,
            Ok(node) => match spec_step(node, path) {
                StepView::Descend(rest, child) => spec_expected_at(
                    child,
                    rest,
                    nodes.skip(1),
                    (i - 1) as nat,
                ),
                _ => None,
            },
        }
    }
}

/// A node that the walk reads and that is not what it is held against fails
/// the whole verification, whatever the node holds and whatever follows it.
pub proof fn lemma_unauthentic_node_rejected(
    root: Seq<u8>,
    path: Seq<u8>,
    nodes: Seq<Seq<u8>>,
    i: nat,
)
    requires
        i < nodes.len(),
        spec_expected_at(root, path, nodes, i) matches Some(expected) && !spec_is_authentic(
            expected,
            nodes[i as int],
        ),
    ensures
        spec_verify_proof(root, path, nodes) == Err::<Seq<u8>, TrieError>(
            TrieError::ProofHashMismatch,
        ),
    decreases i,
{
    if i > 0 {
        let node = spec_decode_node_or_empty(nodes[0])->Ok_0;
        if let StepView::Descend(rest, child) = spec_step(node, path) {
            assert(nodes.skip(1)[i - 1] == nodes[i as int]);
            lemma_unauthentic_node_rejected(child, rest, nodes.skip(1), (i - 1) as nat);
        }
    }
}

/// What entry `i` is held against does not depend on entry `i` or on those
/// after it.
proof fn lemma_expected_at_ignores_later(
    root: Seq<u8>,
    path: Seq<u8>,
    nodes: Seq<Seq<u8>>,
    i: nat,
    other: Seq<u8>,
)
    requires
        i < nodes.len(),
    ensures
        spec_expected_at(root, path, nodes.update(i as int, other), i) == spec_expected_at(
            root,
            path,
            nodes,
            i,
        ),
    decreases i,
{
    let changed = nodes.update(i as int, other);
    if i > 0 && spec_is_authentic(root, nodes[0]) {
        assert(changed[0] == nodes[0]);
        if let Ok(node) = spec_decode_node_or_empty(nodes[0]) {
            if let StepView::Descend(rest, child) = spec_step(node, path) {
                assert(changed.skip(1) =~= nodes.skip(1).update(i - 1, other));
                lemma_expected_at_ignores_later(child, rest, nodes.skip(1), (i - 1) as nat, other);
            }
        }
    }
}

/// Tampering is found out. Take a chain in which the walk reads entry `i` and
/// finds it authentic, and put bytes with another digest in its place: the
/// verification of the new chain fails with `ProofHashMismatch`, and so
/// returns no value.
pub proof fn lemma_altered_node_rejected(
    root: Seq<u8>,
    path: Seq<u8>,
    nodes: Seq<Seq<u8>>,
    i: nat,
    altered: Seq<u8>,
)
    requires
        i < nodes.len(),
        spec_expected_at(root, path, nodes, i) matches Some(expected) && spec_is_authentic(
            expected,
            nodes[i as int],
        ),
        keccak256_digest(altered) != keccak256_digest(nodes[i as int]),
    ensures
        spec_verify_proof(root, path, nodes.update(i as int, altered)) == Err::<
            Seq<u8>,
            TrieError,
        >(TrieError::ProofHashMismatch),
{
    lemma_expected_at_ignores_later(root, path, nodes, i, altered);
    lemma_unauthentic_node_rejected(root, path, nodes.update(i as int, altered), i);
}

} // verus!
