use vstd::prelude::*;

verus! {

/// Why a decode, a lookup or a verification stopped. Every error ends the call
/// that met it.
#[derive(Clone, Copy, Debug, PartialEq, Eq, Structural)]
pub enum TrieError {
    /// The envelope is empty, or ends inside its own length field.
    MalformedEnvelope,
    /// An envelope declares more payload than the bytes around it hold.
    TruncatedList,
    /// A length field holds a number above `u32::MAX`.
    LengthOverflow,
    /// A node was to be decoded from no bytes at all.
    EmptyNode,
    /// The outer envelope of a node is a string.
    NotAList,
    /// An item of a node is a list, or the path of a leaf or extension is not a
    /// hex-prefix encoding.
    MalformedNode,
    /// A node has neither two nor seventeen items.
    UnknownNodeShape,
    /// The store holds no node under a digest that the walk needs.
    NodeNotFound,
    /// The walk reached an empty subtree.
    KeyNotPresent,
    /// A leaf or an extension does not lie on the path of the key.
    PathMismatch,
    /// The path ends at a branch that holds no value.
    NoValueAtBranch,
    /// The branch has no child for the next nibble of the path.
    MissingBranchChild,
    /// A supplied node is not the one that its parent, or the root, commits to.
    ProofHashMismatch,
    /// The supplied nodes ran out before the walk ended.
    IncompleteProof,
    /// A record has fewer fields than its schema names.
    IncorrectListLen,
    /// A field of a record is longer than its type, or a digest or an address
    /// is not of its length.
    IncorrectFieldLen,
}

} // verus!
