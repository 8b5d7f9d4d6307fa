//! The trie: nodes, the paths that lead through them, and the walk from a
//! root to the value of a key over a store of nodes.

pub mod nibbleslice;
pub mod node;
pub mod walk;

use vstd::prelude::*;
use vstd::slice::slice_to_vec;
use crate::bytes::bytes_eq;
use crate::error::TrieError;
use crate::keccak_hasher::{keccak256, keccak256_digest};
use crate::trie::nibbleslice::{nibbles, NibbleSlice};
use crate::trie::node::{node_result_view, spec_decode_node, Node, NodeView};
use crate::trie::walk::{lemma_step_shortens, spec_step, step, Step, StepView};

verus! {

/// The digest of the empty node: the root of a trie that holds nothing.
pub const HASHED_NULL_NODE_BYTES: [u8; 32] = [
    0x56, 0xe8, 0x1f, 0x17, 0x1b, 0xcc, 0x55, 0xa6, 0xff, 0x83, 0x45, 0xe6, 0x92, 0xc0, 0xf8, 0x6e,
    0x5b, 0x48, 0xe0, 0x1b, 0x99, 0x6c, 0xad, 0xc0, 0x01, 0x62, 0x2f, 0xb5, 0xe3, 0x63, 0xb4, 0x21,
];

/// The encoding of the empty string, which stands for the empty node.
pub const NULL_RLP: [u8; 1] = [0x80];

/// The length of a digest. A child that a node holds in fewer bytes is the
/// child's own encoding.
pub const DIGEST_LEN: usize = 32;

/// Whether `node_ref` names the empty node: by its digest, or as the empty
/// string that encodes it.
pub open spec fn spec_is_empty_ref(node_ref: Seq<u8>) -> bool {
    node_ref == HASHED_NULL_NODE_BYTES@ || node_ref == NULL_RLP@
}

/// Whether `node_ref` names the empty node.
pub fn is_empty_ref(node_ref: &[u8]) -> (b: bool)
    ensures
        b == spec_is_empty_ref(node_ref@),
{
    bytes_eq(node_ref, HASHED_NULL_NODE_BYTES.as_slice()) || bytes_eq(node_ref, NULL_RLP.as_slice())
}

/// What a node holds for a child, or a caller for a root, told apart by what
/// it is.
#[derive(Clone, Copy, Debug, PartialEq, Eq)]
pub enum ChildRef<'a> {
    /// The empty node.
    Empty,
    /// The encoding of the node itself, which is shorter than a digest.
    Inline(&'a [u8]),
    /// The digest of the node's encoding.
    Digest(&'a [u8]),
}

/// A reference as plain values.
pub enum ChildRefView {
    Empty,
    Inline(Seq<u8>),
    Digest(Seq<u8>),
}

impl<'a> View for ChildRef<'a> {
    type V = ChildRefView;

    open spec fn view(&self) -> ChildRefView {
        match *self {
            ChildRef::Empty => ChildRefView::Empty,
            ChildRef::Inline(encoded) => ChildRefView::Inline(encoded@),
            ChildRef::Digest(digest) => ChildRefView::Digest(digest@),
        }
    }
}

/// What the bytes `node_ref` refer to: the empty node where they name it,
/// themselves where they are shorter than a digest, and else the node that
/// hashes to them.
pub open spec fn spec_child_ref(node_ref: Seq<u8>) -> ChildRefView {
    if spec_is_empty_ref(node_ref) {
        ChildRefView::Empty
    } else if node_ref.len() < DIGEST_LEN {
        ChildRefView::Inline(node_ref)
    } else {
        ChildRefView::Digest(node_ref)
    }
}

impl<'a> ChildRef<'a> {
    /// Tells what `node_ref` refers to.
    pub fn new(node_ref: &'a [u8]) -> (child: ChildRef<'a>)
        ensures
            child@ == spec_child_ref(node_ref@),
    {
        if is_empty_ref(node_ref) {
            ChildRef::Empty
        } else if node_ref.len() < DIGEST_LEN {
            ChildRef::Inline(node_ref)
        } else {
            ChildRef::Digest(node_ref)
        }
    }
}

/// Every node of `store` is filed under its own digest.
pub open spec fn content_addressed(store: Map<Seq<u8>, Seq<u8>>) -> bool {
    forall|digest: Seq<u8>| #[trigger]
        store.dom().contains(digest) ==> keccak256_digest(store[digest]) == digest
}

/// The node that `node_ref` refers to: the empty node; or the node that it
/// holds in full; or the node that `store` holds under it.
pub open spec fn spec_get_node(store: Map<Seq<u8>, Seq<u8>>, node_ref: Seq<u8>) -> Result<
    NodeView,
    TrieError,
> {
    match spec_child_ref(node_ref) {
        ChildRefView::Empty => Ok(NodeView::Empty),
        ChildRefView::Inline(encoded) => spec_decode_node(encoded),
        ChildRefView::Digest(digest) => if store.dom().contains(digest) {
            spec_decode_node(store[digest])
        } else {
            Err(TrieError::NodeNotFound)
        },
    }
}

/// The value that the walk from the node `node_ref` along `path` ends at, or
/// the error that stops it.
pub open spec fn spec_lookup(
    store: Map<Seq<u8>, Seq<u8>>,
    node_ref: Seq<u8>,
    path: Seq<u8>,
) -> Result<Seq<u8>, TrieError>
    decreases path.len(),
{
    match spec_get_node(store, node_ref) {
        Err(e) => Err(e),
        Ok(node) => match spec_step(node, path) {
            StepView::Found(value) => Ok(value),
            StepView::Failed(e) => Err(e),
            StepView::Descend(rest, child) => spec_lookup(store, child, rest),
        },
    }
}

/// The path of a key: the nibbles of its digest.
pub open spec fn key_path(key: Seq<u8>) -> Seq<u8> {
    nibbles(keccak256_digest(key))
}

/// What a walk hands back, with the bytes replaced by what they hold.
pub open spec fn slice_result_view(res: Result<&[u8], TrieError>) -> Result<Seq<u8>, TrieError> {
    match res {
        Ok(value) => Ok(value@),
        Err(e) => Err(e),
    }
}

/// What a lookup hands back, with the bytes replaced by what they hold.
pub open spec fn value_result_view(res: Result<Vec<u8>, TrieError>) -> Result<Seq<u8>, TrieError> {
    match res {
        Ok(value) => Ok(value@),
        Err(e) => Err(e),
    }
}

/// What `verify_and_update` answers: no new nodes where the trie under `root`
/// holds a value for `key`, and else the error of the lookup.
pub open spec fn spec_verify_and_update(
    store: Map<Seq<u8>, Seq<u8>>,
    root: Seq<u8>,
    key: Seq<u8>,
) -> Result<Seq<Seq<u8>>, TrieError> {
    match spec_lookup(store, root, key_path(key)) {
        Ok(_) => Ok(Seq::empty()),
        Err(e) => Err(e),
    }
}

/// What `verify_and_update` hands back, with the nodes replaced by what they
/// hold.
pub open spec fn new_nodes_view(res: Result<Vec<Vec<u8>>, TrieError>) -> Result<
    Seq<Seq<u8>>,
    TrieError,
> {
    match res {
        Ok(nodes) => Ok(Seq::new(nodes@.len(), |i: int| nodes@[i]@)),
        Err(e) => Err(e),
    }
}

/// A lookup is a function of the store, the root and the key: two lookups of
/// one key under one root, in a store that has not changed in between, end
/// alike.
pub proof fn lemma_lookup_idempotent(
    store: Map<Seq<u8>, Seq<u8>>,
    root: Seq<u8>,
    key: Seq<u8>,
    first: Result<Vec<u8>, TrieError>,
    second: Result<Vec<u8>, TrieError>,
)
    requires
        value_result_view(first) == spec_lookup(store, root, key_path(key)),
        value_result_view(second) == spec_lookup(store, root, key_path(key)),
    ensures
        value_result_view(first) == value_result_view(second),
{
}

/// A node of the store and the digest that it is filed under.
struct Entry {
    key: [u8; 32],
    value: Vec<u8>,
}

/// Whether one of `entries` lies under `key`.
spec fn has_key(entries: Seq<Entry>, key: Seq<u8>) -> bool {
    exists|i: int| 0 <= i < entries.len() && (#[trigger] entries[i]).key@ == key
}

/// A place at which an entry lies under `key`, if there is one.
spec fn index_of(entries: Seq<Entry>, key: Seq<u8>) -> int {
    choose|i: int| 0 <= i < entries.len() && (#[trigger] entries[i]).key@ == key
}

/// The store that `entries` stand for.
spec fn entries_map(entries: Seq<Entry>) -> Map<Seq<u8>, Seq<u8>> {
    Map::new(
        |key: Seq<u8>| has_key(entries, key),
        |key: Seq<u8>| entries[index_of(entries, key)].value@,
    )
}

/// Every entry lies under the digest of its node, and no two entries lie
/// under one digest.
spec fn entries_wf(entries: Seq<Entry>) -> bool {
    &&& forall|i: int|
        0 <= i < entries.len() ==> (#[trigger] entries[i]).key@ == keccak256_digest(
            entries[i].value@,
        )
    &&& forall|i: int, j: int|
        0 <= i < j < entries.len() ==> (#[trigger] entries[i]).key@ != (#[trigger] entries[j]).key@
}

/// The key of a well-formed list is found at one place only.
proof fn lemma_index_of(entries: Seq<Entry>, i: int)
    requires
        entries_wf(entries),
        0 <= i < entries.len(),
    ensures
        has_key(entries, entries[i].key@),
        index_of(entries, entries[i].key@) == i,
{
}

/// A well-formed list stands for a store in which every node lies under its
/// own digest.
proof fn lemma_entries_content_addressed(entries: Seq<Entry>)
    requires
        entries_wf(entries),
    ensures
        content_addressed(entries_map(entries)),
{
}

/// Putting a node under a new digest, at the end.
proof fn lemma_entries_push(entries: Seq<Entry>, entry: Entry)
    requires
        entries_wf(entries),
        !has_key(entries, entry.key@),
        entry.key@ == keccak256_digest(entry.value@),
    ensures
        entries_wf(entries.push(entry)),
        entries_map(entries.push(entry)) == entries_map(entries).insert(entry.key@, entry.value@),
{
    lemma_entries_same_but(entries, entries.push(entry), entries.len() as int, entry);
}

/// Putting another node in the place of one, under the same digest.
proof fn lemma_entries_update(entries: Seq<Entry>, at: int, entry: Entry)
    requires
        entries_wf(entries),
        0 <= at < entries.len(),
        entries[at].key@ == entry.key@,
        entry.key@ == keccak256_digest(entry.value@),
    ensures
        entries_wf(entries.update(at, entry)),
        entries_map(entries.update(at, entry)) == entries_map(entries).insert(
            entry.key@,
            entry.value@,
        ),
{
    lemma_entries_same_but(entries, entries.update(at, entry), at, entry);
}

/// Two well-formed lists that differ at one place, where the second holds
/// `entry`: the second stands for the map of the first with `entry` put in.
proof fn lemma_entries_same_but(before: Seq<Entry>, after: Seq<Entry>, at: int, entry: Entry)
    requires
        entries_wf(before),
        entries_wf(after),
        0 <= at < after.len(),
        after[at] == entry,
        before.len() == after.len() || (before.len() == at && after.len() == at + 1),
        forall|i: int| 0 <= i < before.len() && i != at ==> before[i] == after[i],
        at < before.len() ==> before[at].key@ == entry.key@,
    ensures
        entries_map(after) == entries_map(before).insert(entry.key@, entry.value@),
{
}

/// A store of nodes, each filed under its digest. It is filled once, from the
/// nodes that come with a block, and read from then on.
pub struct Trie {
    db: Vec<Entry>,
}

impl View for Trie {
    type V = Map<Seq<u8>, Seq<u8>>;

    /// The encoding of each node that the store holds, by its digest.
    closed spec fn view(&self) -> Map<Seq<u8>, Seq<u8>> {
        entries_map(self.db@)
    }
}

impl Trie {
    /// The store holds every node under its own digest, once.
    #[verifier::type_invariant]
    spec fn wf(self) -> bool {
        entries_wf(self.db@)
    }

    /// A store that holds nothing.
    pub fn new() -> (trie: Self)
        ensures
            trie@ == Map::<Seq<u8>, Seq<u8>>::empty(),
    {
        Trie { db: Vec::new() }
    }

    /// A store that holds nothing, with room for `cap` nodes.
    pub fn with_capacity(cap: usize) -> (trie: Self)
        ensures
            trie@ == Map::<Seq<u8>, Seq<u8>>::empty(),
    {
        Trie { db: Vec::with_capacity(cap) }
    }

    /// Where the node under `key` lies, if the store holds one.
    fn find(&self, key: &[u8]) -> (at: Option<usize>)
        ensures
            at matches Some(i) ==> i < self.db@.len() && self.db@[i as int].key@ == key@,
            at is None ==> !has_key(self.db@, key@),
    {
        let mut i: usize = 0;
        while i < self.db.len()
            invariant
                0 <= i <= self.db@.len(),
                forall|j: int| 0 <= j < i ==> (#[trigger] self.db@[j]).key@ != key@,
            decreases self.db@.len() - i,
        {
            if bytes_eq(self.db[i].key.as_slice(), key) {
                return Some(i);
            }
            i += 1;
        }
        None
    }

    /// The encoding of the node that the store holds under `key`.
    pub fn db_get(&self, key: &[u8]) -> (value: Option<&Vec<u8>>)
        ensures
            value is Some <==> self@.dom().contains(key@),
            value matches Some(encoded) ==> encoded@ == self@[key@],
            content_addressed(self@),
    {
        proof {
            use_type_invariant(self);
            lemma_entries_content_addressed(self.db@);
        }
        match self.find(key) {
            Some(i) => {
                proof {
                    lemma_index_of(self.db@, i as int);
                }
                Some(&self.db[i].value)
            },
            None => None,
        }
    }

    /// Files the node `value` under its digest and returns the digest. A node
    /// that the store held under that digest makes way for it.
    pub fn db_insert(&mut self, value: &[u8]) -> (key: [u8; 32])
        ensures
            key@ == keccak256_digest(value@),
            final(self)@ == old(self)@.insert(key@, value@),
            content_addressed(final(self)@),
    {
        proof {
            use_type_invariant(&*self);
        }
        let key: [u8; 32] = keccak256(value);
        let entry = Entry { key, value: slice_to_vec(value) };
        let at: Option<usize> = self.find(key.as_slice());
        let mut db: Vec<Entry> = Vec::new();
        core::mem::swap(&mut self.db, &mut db);
        match at {
            Some(i) => {
                proof {
                    lemma_entries_update(db@, i as int, entry);
                }
                db.set(i, entry);
            },
            None => {
                proof {
                    lemma_entries_push(db@, entry);
                }
                db.push(entry);
            },
        }
        proof {
            lemma_entries_content_addressed(db@);
        }
        self.db = db;
        key
    }

    /// Resolves what a node holds for a child, or a root, to the node.
    pub fn get_node<'a>(&'a self, node_hash: &'a [u8]) -> (res: Result<Node<'a>, TrieError>)
        ensures
            node_result_view(res) == spec_get_node(self@, node_hash@),
    {
        match ChildRef::new(node_hash) {
            ChildRef::Empty => Ok(Node::Empty),
            ChildRef::Inline(encoded) => Node::from(encoded),
            ChildRef::Digest(digest) => match self.db_get(digest) {
                None => Err(TrieError::NodeNotFound),
                Some(encoded) => Node::from(encoded.as_slice()),
            },
        }
    }

    /// Walks from `root` along `path` and returns the value at its end, a view
    /// into the store or into `root`.
    pub fn lookup<'a>(&'a self, root: &'a [u8], path: NibbleSlice) -> (res: Result<
        &'a [u8],
        TrieError,
    >)
        ensures
            slice_result_view(res) == spec_lookup(self@, root@, path@),
            content_addressed(self@),
    {
        proof {
            use_type_invariant(self);
            lemma_entries_content_addressed(self.db@);
        }
        let mut node_ref: &'a [u8] = root;
        let mut left = path;
        loop
            invariant
                spec_lookup(self@, root@, path@) == spec_lookup(self@, node_ref@, left@),
                content_addressed(self@),
            decreases left@.len(),
        {
            let node: Node<'a> = self.get_node(node_ref)?;
            proof {
                lemma_step_shortens(node@, left@);
            }
            match step(node, left) {
                Step::Found(value) => {
                    return Ok(value);
                },
                Step::Failed(e) => {
                    return Err(e);
                },
                Step::Descend(rest, child) => {
                    left = rest;
                    node_ref = child;
                },
            }
        }
    }

    /// The value that the trie under `root` holds for `key`.
    pub fn get(&self, root: &[u8; 32], key: &[u8]) -> (res: Result<Vec<u8>, TrieError>)
        ensures
            value_result_view(res) == spec_lookup(self@, root@, key_path(key@)),
            content_addressed(self@),
    {
        let hashed: [u8; 32] = keccak256(key);
        let path = NibbleSlice::new(hashed.as_slice());
        let value: &[u8] = self.lookup(root.as_slice(), path)?;
        Ok(slice_to_vec(value))
    }

    /// Checks that the trie under `root` holds a value for `key`, as a
    /// transfer of `value` from the account `key` (`sub`) or to it has to
    /// before it changes anything.
    ///
    /// The walk is that of `get`. The nodes that the transfer would change are
    /// not written again: the list of new nodes is empty, and the store stays
    /// as it is.
    #[allow(unused_variables)]
    pub fn verify_and_update(
        &mut self,
        root: &[u8; 32],
        key: &[u8],
        value: &[u8; 32],
        sub: bool,
    ) -> (res: Result<Vec<Vec<u8>>, TrieError>)
        ensures
            final(self)@ == old(self)@,
            new_nodes_view(res) == spec_verify_and_update(old(self)@, root@, key@),
    {
        let hashed: [u8; 32] = keccak256(key);
        let path = NibbleSlice::new(hashed.as_slice());
        self.lookup(root.as_slice(), path)?;
        let new_nodes: Vec<Vec<u8>> = Vec::new();
        proof {
            assert(Seq::new(new_nodes@.len(), |i: int| new_nodes@[i]@) =~= Seq::<Seq<u8>>::empty());
        }
        Ok(new_nodes)
    }
}

} // verus!
