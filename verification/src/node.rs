use crate::cached_size::CachedSize;
use crate::error::Error;
use crate::ser::Serialize;
use crate::varint::{size_varint_u64, varint_enc, write_varint_u64};
use crate::wire_type::{WireType, WIRE_TYPE_SIZED, WIRE_TYPE_VARINT};
use vstd::prelude::*;

verus! {

/// A nesting position mounted under a parent at a fixed tag, owning
/// the memoized size of the object attached there.
#[derive(Clone, Copy, Debug)]
pub struct Child {
    tag: u16,
    cached_size: CachedSize,
}

impl Child {
    /// The tag this node was mounted at; permanent for its lifetime.
    pub closed spec fn spec_tag(&self) -> u16 {
        self.tag
    }

    /// The memoized size cell.
    pub closed spec fn spec_cached(&self) -> Option<u32> {
        self.cached_size@
    }

    /// A fresh child node at `tag` with no size memoized.
    pub fn new(tag: u16) -> (r: Child)
        ensures
            r.spec_tag() == tag,
            r.spec_cached() is None,
    {
        Child { tag, cached_size: CachedSize::unset() }
    }
}

impl WireType for Child {
    open spec fn wire_type_spec() -> u8 {
        WIRE_TYPE_VARINT
    }

    proof fn wire_type_valid() {
    }

    fn wire_type() -> u8 {
        WIRE_TYPE_VARINT
    }
}

impl Serialize for Child {
    open spec fn encoding(&self) -> Seq<u8> {
        varint_enc(self.spec_tag() as nat)
    }

    open spec fn ser_wf(&self) -> bool {
        true
    }

    proof fn ser_wf_bound(&self) {
        crate::varint::lemma_varint_enc_len_le_10(self.spec_tag() as nat);
    }

    fn compute_size(&self) -> u32 {
        size_varint_u64(self.tag as u64)
    }

    fn serialize_with_cached_size(&self, writer: &mut Vec<u8>) -> Result<(), Error> {
        write_varint_u64(writer, self.tag as u64);
        Ok(())
    }
}

/// The top of a synchronization scope: an address sentinel that
/// contributes no bytes to any frame, owning only its memoized size.
#[derive(Clone, Copy, Debug)]
pub struct Root {
    cached_size: CachedSize,
}

impl Root {
    /// The memoized size cell.
    pub closed spec fn spec_cached(&self) -> Option<u32> {
        self.cached_size@
    }

    /// A fresh root with no size memoized.
    pub fn new() -> (r: Root)
        ensures
            r.spec_cached() is None,
    {
        Root { cached_size: CachedSize::unset() }
    }
}

impl Default for Root {
    fn default() -> (r: Root)
        ensures
            r.spec_cached() is None,
    {
        Root::new()
    }
}

impl WireType for Root {
    open spec fn wire_type_spec() -> u8 {
        WIRE_TYPE_SIZED
    }

    proof fn wire_type_valid() {
    }

    fn wire_type() -> u8 {
        WIRE_TYPE_SIZED
    }
}

impl Serialize for Root {
    open spec fn encoding(&self) -> Seq<u8> {
        Seq::empty()
    }

    open spec fn ser_wf(&self) -> bool {
        true
    }

    proof fn ser_wf_bound(&self) {
    }

    fn compute_size(&self) -> u32 {
        0
    }

    fn serialize_with_cached_size(&self, writer: &mut Vec<u8>) -> Result<(), Error> {
        proof {
            assert(writer@ =~= old(writer)@ + Seq::<u8>::empty());
        }
        Ok(())
    }
}

/// One node of the object tree, held in an arena slot: either the root
/// of a scope, or a child naming its parent's arena index.  Ownership
/// runs strictly child to parent, so the tree can never form a cycle.
#[derive(Clone, Copy, Debug)]
#[allow(inconsistent_fields)]
pub enum Node {
    Root { inner: Root },
    Child { parent: usize, inner: Child },
}

/// The node's memoized size cell.
pub open spec fn node_cached(n: Node) -> Option<u32> {
    match n {
        Node::Root { inner } => inner.spec_cached(),
        Node::Child { inner, .. } => inner.spec_cached(),
    }
}

/// The parent slot of a child node; a root has none.
pub open spec fn node_parent(n: Node) -> Option<usize> {
    match n {
        Node::Root { .. } => None,
        Node::Child { parent, .. } => Some(parent),
    }
}

/// The mount tag of a child node; a root has none.
pub open spec fn node_tag(n: Node) -> Option<u16> {
    match n {
        Node::Root { .. } => None,
        Node::Child { inner, .. } => Some(inner.spec_tag()),
    }
}

/// Two nodes at the same position in two trees that differ at most in
/// their memoized sizes.
pub open spec fn same_shape(a: Node, b: Node) -> bool {
    node_parent(a) == node_parent(b) && node_tag(a) == node_tag(b)
}

/// The arena holding every node of one or more scopes.  A child's
/// parent always sits at a lower index, so every upward walk ends.
pub struct Tree {
    nodes: Vec<Node>,
}

impl Tree {
    pub closed spec fn nodes_seq(&self) -> Seq<Node> {
        self.nodes@
    }

    pub open spec fn wf(&self) -> bool {
        forall|i: int|
            0 <= i < self.nodes_seq().len() ==> match node_parent(#[trigger] self.nodes_seq()[i]) {
                Some(p) => 0 <= p < i,
                None => true,
            }
    }

    /// The tag path of slot `i`: the tags walking from its root down to it.
    pub open spec fn path_of(&self, i: int) -> Seq<u16>
        decreases i,
        when self.wf() && 0 <= i < self.nodes_seq().len()
    {
        match self.nodes_seq()[i] {
            Node::Root { .. } => Seq::empty(),
            Node::Child { parent, inner } => self.path_of(parent as int).push(inner.spec_tag()),
        }
    }

    /// Does slot `j` lie on the upward chain from slot `i` (inclusive)?
    pub open spec fn on_chain(&self, i: int, j: int) -> bool
        decreases i,
        when self.wf() && 0 <= i < self.nodes_seq().len()
    {
        i == j || match self.nodes_seq()[i] {
            Node::Root { .. } => false,
            Node::Child { parent, .. } => self.on_chain(parent as int, j),
        }
    }

    /// An empty arena.
    pub fn new() -> (r: Tree)
        ensures
            r.wf(),
            r.nodes_seq().len() == 0,
    {
        Tree { nodes: Vec::new() }
    }

    /// How many slots the arena holds.
    pub fn node_count(&self) -> (r: usize)
        ensures
            r == self.nodes_seq().len(),
    {
        self.nodes.len()
    }

    /// Appends a fresh root slot and returns its index.
    pub fn add_root(&mut self) -> (r: usize)
        requires
            old(self).wf(),
        ensures
            final(self).wf(),
            r == old(self).nodes_seq().len(),
            final(self).nodes_seq().len() == old(self).nodes_seq().len() + 1,
            forall|i: int|
                0 <= i < old(self).nodes_seq().len() ==> final(self).nodes_seq()[i] == old(
                    self,
                ).nodes_seq()[i],
            node_parent(final(self).nodes_seq()[r as int]) is None,
            node_tag(final(self).nodes_seq()[r as int]) is None,
            node_cached(final(self).nodes_seq()[r as int]) is None,
            final(self).path_of(r as int) == Seq::<u16>::empty(),
    {
        let r: usize = self.nodes.len();
        self.nodes.push(Node::Root { inner: Root::new() });
        proof {
            assert forall|i: int|
                0 <= i < self.nodes_seq().len() implies match node_parent(
                #[trigger] self.nodes_seq()[i],
            ) {
                Some(p) => 0 <= p < i,
                None => true,
            } by {
                if i < r {
                    assert(self.nodes_seq()[i] == old(self).nodes_seq()[i]);
                }
            }
        }
        r
    }

    /// Appends a fresh child slot under `parent` at `tag` and returns
    /// its index.
    pub fn add_child(&mut self, parent: usize, tag: u16) -> (r: usize)
        requires
            old(self).wf(),
            parent < old(self).nodes_seq().len(),
        ensures
            final(self).wf(),
            r == old(self).nodes_seq().len(),
            final(self).nodes_seq().len() == old(self).nodes_seq().len() + 1,
            forall|i: int|
                0 <= i < old(self).nodes_seq().len() ==> final(self).nodes_seq()[i] == old(
                    self,
                ).nodes_seq()[i],
            node_parent(final(self).nodes_seq()[r as int]) == Some(parent),
            node_tag(final(self).nodes_seq()[r as int]) == Some(tag),
            node_cached(final(self).nodes_seq()[r as int]) is None,
    {
        let r: usize = self.nodes.len();
        self.nodes.push(Node::Child { parent, inner: Child::new(tag) });
        proof {
            assert forall|i: int|
                0 <= i < self.nodes_seq().len() implies match node_parent(
                #[trigger] self.nodes_seq()[i],
            ) {
                Some(p) => 0 <= p < i,
                None => true,
            } by {
                if i < r {
                    assert(self.nodes_seq()[i] == old(self).nodes_seq()[i]);
                }
            }
        }
        r
    }

    /// The parent slot of `i`, if `i` holds a child node.
    pub fn parent_of(&self, i: usize) -> (r: Option<usize>)
        requires
            i < self.nodes_seq().len(),
        ensures
            r == node_parent(self.nodes_seq()[i as int]),
    {
        match &self.nodes[i] {
            Node::Root { .. } => None,
            Node::Child { parent, .. } => Some(*parent),
        }
    }

    /// Is a size memoized at slot `i`?
    pub fn is_cached_size_set(&self, i: usize) -> (r: bool)
        requires
            i < self.nodes_seq().len(),
        ensures
            r == (node_cached(self.nodes_seq()[i as int]) is Some),
    {
        match &self.nodes[i] {
            Node::Root { inner } => inner.cached_size.is_set(),
            Node::Child { inner, .. } => inner.cached_size.is_set(),
        }
    }

    /// The size memoized at slot `i`, if any.
    pub fn cached_size_of(&self, i: usize) -> (r: Option<u32>)
        requires
            i < self.nodes_seq().len(),
        ensures
            r == node_cached(self.nodes_seq()[i as int]),
    {
        match &self.nodes[i] {
            Node::Root { inner } => inner.cached_size.get(),
            Node::Child { inner, .. } => inner.cached_size.get(),
        }
    }

    /// Overrides the memoized size at slot `i`.
    pub fn set_cached_size(&mut self, i: usize, size: u32)
        requires
            old(self).wf(),
            i < old(self).nodes_seq().len(),
        ensures
            final(self).wf(),
            final(self).nodes_seq().len() == old(self).nodes_seq().len(),
            forall|j: int|
                0 <= j < old(self).nodes_seq().len() && j != i ==> final(self).nodes_seq()[j]
                    == old(self).nodes_seq()[j],
            same_shape(final(self).nodes_seq()[i as int], old(self).nodes_seq()[i as int]),
            node_cached(final(self).nodes_seq()[i as int]) == Some(size),
    {
        let node: Node = self.nodes[i];
        let updated: Node = match node {
            Node::Root { mut inner } => {
                inner.cached_size.set(size);
                Node::Root { inner }
            },
            Node::Child { parent, mut inner } => {
                inner.cached_size.set(size);
                Node::Child { parent, inner }
            },
        };
        self.nodes.set(i, updated);
        proof {
            lemma_wf_shape_preserved(*old(self), *self);
        }
    }

    /// Clears the memoized size at slot `i` alone.
    pub fn clear_cached_size_at(&mut self, i: usize)
        requires
            old(self).wf(),
            i < old(self).nodes_seq().len(),
        ensures
            final(self).wf(),
            final(self).nodes_seq().len() == old(self).nodes_seq().len(),
            forall|j: int|
                0 <= j < old(self).nodes_seq().len() && j != i ==> final(self).nodes_seq()[j]
                    == old(self).nodes_seq()[j],
            same_shape(final(self).nodes_seq()[i as int], old(self).nodes_seq()[i as int]),
            node_cached(final(self).nodes_seq()[i as int]) is None,
    {
        let node: Node = self.nodes[i];
        let updated: Node = match node {
            Node::Root { mut inner } => {
                inner.cached_size.clear();
                Node::Root { inner }
            },
            Node::Child { parent, mut inner } => {
                inner.cached_size.clear();
                Node::Child { parent, inner }
            },
        };
        self.nodes.set(i, updated);
        proof {
            lemma_wf_shape_preserved(*old(self), *self);
        }
    }
}

/// Trees of the same shape are equally well-formed.
pub proof fn lemma_wf_shape_preserved(t1: Tree, t2: Tree)
    requires
        t1.wf(),
        t1.nodes_seq().len() == t2.nodes_seq().len(),
        forall|i: int|
            0 <= i < t1.nodes_seq().len() ==> same_shape(
                #[trigger] t1.nodes_seq()[i],
                #[trigger] t2.nodes_seq()[i],
            ),
    ensures
        t2.wf(),
{
    assert forall|i: int|
        0 <= i < t2.nodes_seq().len() implies match node_parent(#[trigger] t2.nodes_seq()[i]) {
        Some(p) => 0 <= p < i,
        None => true,
    } by {
        assert(same_shape(t1.nodes_seq()[i], t2.nodes_seq()[i]));
    }
}

/// Paths read the shape alone: trees that agree in shape below `n`
/// agree on every path there.
pub proof fn lemma_path_of_shape(t1: Tree, t2: Tree, n: int, i: int)
    requires
        t1.wf(),
        t2.wf(),
        n <= t1.nodes_seq().len(),
        n <= t2.nodes_seq().len(),
        forall|j: int|
            0 <= j < n ==> same_shape(#[trigger] t1.nodes_seq()[j], #[trigger] t2.nodes_seq()[j]),
        0 <= i < n,
    ensures
        t1.path_of(i) == t2.path_of(i),
    decreases i,
{
    assert(same_shape(t1.nodes_seq()[i], t2.nodes_seq()[i]));
    match t1.nodes_seq()[i] {
        Node::Root { .. } => {
            assert(t2.nodes_seq()[i] is Root);
        },
        Node::Child { parent, inner } => {
            assert(node_parent(t2.nodes_seq()[i]) == Some(parent));
            assert(node_tag(t2.nodes_seq()[i]) == Some(inner.spec_tag()));
            lemma_path_of_shape(t1, t2, n, parent as int);
        },
    }
}

/// Chains read the shape alone as well.
pub proof fn lemma_on_chain_shape(t1: Tree, t2: Tree, n: int, i: int, j: int)
    requires
        t1.wf(),
        t2.wf(),
        n <= t1.nodes_seq().len(),
        n <= t2.nodes_seq().len(),
        forall|k: int|
            0 <= k < n ==> same_shape(#[trigger] t1.nodes_seq()[k], #[trigger] t2.nodes_seq()[k]),
        0 <= i < n,
    ensures
        t1.on_chain(i, j) == t2.on_chain(i, j),
    decreases i,
{
    assert(same_shape(t1.nodes_seq()[i], t2.nodes_seq()[i]));
    match t1.nodes_seq()[i] {
        Node::Root { .. } => {
            assert(t2.nodes_seq()[i] is Root);
        },
        Node::Child { parent, .. } => {
            assert(node_parent(t2.nodes_seq()[i]) == Some(parent));
            lemma_on_chain_shape(t1, t2, n, parent as int, j);
        },
    }
}

/// Ancestor invalidation.  Let `b` be a child of `a`, itself a child
/// of a root, and let `t1` be `t0` after a clear walked up from `a`
/// (the relation `clear_cached_size` establishes).  Then the clear
/// reached `a` and the root, and never touched the descendant `b`.
pub proof fn lemma_ancestor_invalidation(t0: Tree, t1: Tree, root: usize, a: usize, b: usize)
    requires
        t0.wf(),
        root < t0.nodes_seq().len(),
        a < t0.nodes_seq().len(),
        b < t0.nodes_seq().len(),
        node_parent(t0.nodes_seq()[root as int]) is None,
        node_parent(t0.nodes_seq()[a as int]) == Some(root),
        node_parent(t0.nodes_seq()[b as int]) == Some(a),
        t1.nodes_seq().len() == t0.nodes_seq().len(),
        forall|j: int|
            0 <= j < t0.nodes_seq().len() ==> if t0.on_chain(a as int, j) {
                same_shape(t1.nodes_seq()[j], t0.nodes_seq()[j]) && node_cached(
                    #[trigger] t1.nodes_seq()[j],
                ) is None
            } else {
                t1.nodes_seq()[j] == t0.nodes_seq()[j]
            },
    ensures
        node_cached(t1.nodes_seq()[a as int]) is None,
        node_cached(t1.nodes_seq()[root as int]) is None,
        t1.nodes_seq()[b as int] == t0.nodes_seq()[b as int],
{
    assert(t0.on_chain(a as int, a as int));
    assert(t0.on_chain(root as int, root as int));
    assert(t0.on_chain(a as int, root as int));
    assert(a < b);
    if t0.on_chain(a as int, b as int) {
        lemma_on_chain_le(t0, a as int, b as int);
    }
}

/// A chain only runs toward lower slots: whatever lies on the chain of
/// `i` sits at `i` or below.
pub proof fn lemma_on_chain_le(t: Tree, i: int, j: int)
    requires
        t.wf(),
        0 <= i < t.nodes_seq().len(),
        t.on_chain(i, j),
    ensures
        0 <= j <= i,
    decreases i,
{
    if i != j {
        match t.nodes_seq()[i] {
            Node::Root { .. } => {},
            Node::Child { parent, .. } => {
                lemma_on_chain_le(t, parent as int, j);
            },
        }
    }
}

} // verus!
