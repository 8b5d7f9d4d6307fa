//! The four shapes of a trie node and their decoding from bytes.

use vstd::prelude::*;
use crate::bytes::bytes_eq;
use crate::error::TrieError;
use crate::rlp::{
    decode_list, is_envelope_error, lemma_decode_items_errors, slices_view, spec_decode_length,
    spec_decode_list, RLPItem,
};
use crate::trie::NULL_RLP;
use crate::trie::nibbleslice::{spec_from_encoded, NibbleSlice};

verus! {

/// A node of the trie. Paths and payloads are views into the bytes that the
/// node was decoded from; a child is named by the bytes that the parent holds
/// for it, a digest or the child's own encoding.
#[derive(Clone, Copy, Debug, PartialEq, Eq)]
pub enum Node<'a> {
    /// An absent subtree.
    Empty,
    /// The rest of a key's path and the value stored under that key.
    Leaf(NibbleSlice<'a>, &'a [u8]),
    /// A stretch of path shared by all keys below, and the one child.
    Extension(NibbleSlice<'a>, &'a [u8]),
    /// A child for each next nibble, and the value of the key that ends here.
    Branch([Option<&'a [u8]>; 16], Option<&'a [u8]>),
}

/// A node as plain values: paths as nibbles, payloads as bytes.
pub enum NodeView {
    Empty,
    Leaf(Seq<u8>, Seq<u8>),
    Extension(Seq<u8>, Seq<u8>),
    Branch(Seq<Option<Seq<u8>>>, Option<Seq<u8>>),
}

/// What an optional slice holds.
pub open spec fn slot_view(slot: Option<&[u8]>) -> Option<Seq<u8>> {
    match slot {
        Some(bytes) => Some(bytes@),
        None => None,
    }
}

/// An item of a branch: no bytes stand for nothing.
pub open spec fn slot_of(item: Seq<u8>) -> Option<Seq<u8>> {
    if item.len() > 0 {
        Some(item)
    } else {
        None
    }
}

impl<'a> View for Node<'a> {
    type V = NodeView;

    open spec fn view(&self) -> NodeView {
        match *self {
            Node::Empty => NodeView::Empty,
            Node::Leaf(path, value) => NodeView::Leaf(path@, value@),
            Node::Extension(path, child) => NodeView::Extension(path@, child@),
            Node::Branch(children, value) => NodeView::Branch(
                Seq::new(16, |i: int| slot_view(children@[i])),
                slot_view(value),
            ),
        }
    }
}

/// The node that a list of `items` stands for: two items are a leaf or an
/// extension, as the flags of the first say; seventeen are a branch.
pub open spec fn spec_node_of_items(items: Seq<Seq<u8>>) -> Result<NodeView, TrieError> {
    if items.len() == 2 {
        match spec_from_encoded(items[0]) {
            Err(e) => Err(e),
            Ok((path, is_leaf)) => if is_leaf {
                Ok(NodeView::Leaf(path, items[1]))
            } else {
                Ok(NodeView::Extension(path, items[1]))
            },
        }
    } else if items.len() == 17 {
        Ok(NodeView::Branch(Seq::new(16, |i: int| slot_of(items[i])), slot_of(items[16])))
    } else {
        Err(TrieError::UnknownNodeShape)
    }
}

/// The node that `data` encodes: a list of strings, read as
/// `spec_node_of_items` says.
pub open spec fn spec_decode_node(data: Seq<u8>) -> Result<NodeView, TrieError> {
    match spec_decode_list(data, true) {
        Err(e) => Err(e),
        Ok(items) => spec_node_of_items(items),
    }
}

/// Whether `e` is an error of decoding, as opposed to one of the walk.
pub open spec fn is_decode_error(e: TrieError) -> bool {
    is_envelope_error(e) || e == TrieError::EmptyNode || e == TrieError::NotAList || e
        == TrieError::MalformedNode || e == TrieError::UnknownNodeShape
}

/// Decoding a node fails only with an error of decoding.
pub proof fn lemma_decode_node_errors(data: Seq<u8>)
    ensures
        spec_decode_node(data) matches Err(e) ==> is_decode_error(e),
{
    if data.len() > 0 {
        if let Ok(RLPItem::List(h, l)) = spec_decode_length(data) {
            if h + l <= data.len() {
                lemma_decode_items_errors(data.subrange(h as int, h + l), true);
            }
        }
    }
}

/// The node that `data` encodes, where the empty string may stand for the
/// empty node: a node as `spec_decode_node` reads it, or the empty node.
pub open spec fn spec_decode_node_or_empty(data: Seq<u8>) -> Result<NodeView, TrieError> {
    if data == NULL_RLP@ {
        Ok(NodeView::Empty)
    } else {
        spec_decode_node(data)
    }
}

/// What a decoder hands back, with the node replaced by its view.
pub open spec fn node_result_view(res: Result<Node, TrieError>) -> Result<NodeView, TrieError> {
    match res {
        Ok(node) => Ok(node@),
        Err(e) => Err(e),
    }
}

impl<'a> Node<'a> {
    /// Decodes one node from its encoding, or the empty node from the
    /// encoding of the empty string.
    pub fn from_rlp(data: &'a [u8]) -> (res: Result<Node<'a>, TrieError>)
        ensures
            node_result_view(res) == spec_decode_node_or_empty(data@),
    {
        if bytes_eq(data, NULL_RLP.as_slice()) {
            Ok(Node::Empty)
        } else {
            Node::from(data)
        }
    }

    /// Decodes one node from its encoding.
    pub fn from(data: &'a [u8]) -> (res: Result<Node<'a>, TrieError>)
        ensures
            node_result_view(res) == spec_decode_node(data@),
    {
        let items: Vec<&'a [u8]> = decode_list(data, true)?;
        if items.len() == 2 {
            match NibbleSlice::from_encoded(items[0])? {
                (slice, true) => Ok(Node::Leaf(slice, items[1])),
                (slice, false) => Ok(Node::Extension(slice, items[1])),
            }
        } else if items.len() == 17 {
            let mut children: [Option<&'a [u8]>; 16] = [None;16];
            let mut i: usize = 0;
            while i < 16
                invariant
                    0 <= i <= 16,
                    items@.len() == 17,
                    forall|j: int|
                        0 <= j < i ==> slot_view(#[trigger] children@[j]) == slot_of(items@[j]@),
                    forall|j: int| i <= j < 16 ==> (#[trigger] children@[j]) is None,
                decreases 16 - i,
            {
                if items[i].len() > 0 {
                    children[i] = Some(items[i]);
                }
                i += 1;
            }
            let value: Option<&'a [u8]> = if items[16].len() > 0 {
                Some(items[16])
            } else {
                None
            };
            let node = Node::Branch(children, value);
            proof {
                let view = slices_view(items@);
                assert(Seq::new(16, |i: int| slot_view(children@[i])) =~= Seq::new(
                    16,
                    |i: int| slot_of(view[i]),
                ));
            }
            Ok(node)
        } else {
            Err(TrieError::UnknownNodeShape)
        }
    }
}

} // verus!
