//! One step of the walk from a node towards the value of a key.

use vstd::prelude::*;
use crate::error::TrieError;
use crate::trie::nibbleslice::{is_prefix, NibbleSlice};
use crate::trie::node::{Node, NodeView};

verus! {

/// Where one node leaves the walk.
#[derive(Clone, Copy, Debug, PartialEq, Eq)]
pub enum Step<'a, 'p> {
    /// The key's value.
    Found(&'a [u8]),
    /// The path that is left, and the child to go on with.
    Descend(NibbleSlice<'p>, &'a [u8]),
    /// The key is not under this node.
    Failed(TrieError),
}

/// A step as plain values.
pub enum StepView {
    Found(Seq<u8>),
    Descend(Seq<u8>, Seq<u8>),
    Failed(TrieError),
}

impl<'a, 'p> View for Step<'a, 'p> {
    type V = StepView;

    open spec fn view(&self) -> StepView {
        match *self {
            Step::Found(value) => StepView::Found(value@),
            Step::Descend(rest, child) => StepView::Descend(rest@, child@),
            Step::Failed(e) => StepView::Failed(e),
        }
    }
}

/// What `node` does to a walk that has `path` left to go.
///
/// A leaf ends the walk: with the value if its path is all that is left, else
/// in failure. An extension takes its path away from the front of what is
/// left; it has to take at least one nibble. A branch gives its value where
/// nothing is left, and else goes on with the child of the next nibble.
pub open spec fn spec_step(node: NodeView, path: Seq<u8>) -> StepView {
    match node {
        NodeView::Empty => StepView::Failed(TrieError::KeyNotPresent),
        NodeView::Leaf(k, v) => if k == path {
            StepView::Found(v)
        } else {
            StepView::Failed(TrieError::PathMismatch)
        },
        NodeView::Extension(k, child) => if k.len() > 0 && is_prefix(k, path) {
            StepView::Descend(path.skip(k.len() as int), child)
        } else {
            StepView::Failed(TrieError::PathMismatch)
        },
        NodeView::Branch(children, value) => if path.len() == 0 {
            match value {
                Some(v) => StepView::Found(v),
                None => StepView::Failed(TrieError::NoValueAtBranch),
            }
        } else if path[0] as int >= children.len() {
            StepView::Failed(TrieError::MissingBranchChild)
        } else {
            match children[path[0] as int] {
                Some(child) => StepView::Descend(path.skip(1), child),
                None => StepView::Failed(TrieError::MissingBranchChild),
            }
        },
    }
}

/// A step that goes on leaves less path than it found.
pub proof fn lemma_step_shortens(node: NodeView, path: Seq<u8>)
    ensures
        spec_step(node, path) matches StepView::Descend(rest, _) ==> rest.len() < path.len(),
{
}

/// Takes one step of the walk: what `node` does with `path`.
pub fn step<'a, 'p>(node: Node<'a>, path: NibbleSlice<'p>) -> (next: Step<'a, 'p>)
    ensures
        next@ == spec_step(node@, path@),
{
    match node {
        Node::Empty => Step::Failed(TrieError::KeyNotPresent),
        Node::Leaf(k, v) => {
            if k == path {
                Step::Found(v)
            } else {
                Step::Failed(TrieError::PathMismatch)
            }
        },
        Node::Extension(k, child) => {
            if !k.is_empty() && path.starts_with(&k) {
                Step::Descend(path.mid(k.len()), child)
            } else {
                Step::Failed(TrieError::PathMismatch)
            }
        },
        Node::Branch(children, value) => {
            if path.is_empty() {
                match value {
                    Some(v) => Step::Found(v),
                    None => Step::Failed(TrieError::NoValueAtBranch),
                }
            } else {
                let idx: u8 = path.at(0);
                match children[idx as usize] {
                    Some(child) => Step::Descend(path.mid(1), child),
                    None => Step::Failed(TrieError::MissingBranchChild),
                }
            }
        },
    }
}

} // verus!
