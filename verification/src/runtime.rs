use crate::error::Error;
use crate::log::{Entry, Logger};
use crate::node::{
    lemma_on_chain_le, lemma_on_chain_shape, lemma_path_of_shape, node_cached, node_parent,
    same_shape, Node, Tree,
};
use crate::path::{tags_encoding, write_tags};
use crate::ser::Serialize;
use crate::varint::size_varint_u64;
use crate::wire_type::{WireType, WIRE_TYPE_SIZED};
use vstd::prelude::*;

verus! {

/// A handle at one nesting position of a scope's object tree.
///
/// Many handles may address the same arena slot; the slot's memoized
/// size is shared among them through the arena.  A handle also carries
/// its own copy of the slot's tag path, which is immutable for the
/// slot's lifetime, so serializing a handle needs no arena.
#[derive(Debug)]
pub struct Runtime {
    node: usize,
    path: Vec<u16>,
}

impl View for Runtime {
    type V = Seq<u16>;

    closed spec fn view(&self) -> Seq<u16> {
        self.path@
    }
}

/// Copies a tag vector element by element.
fn copy_tags(tags: &Vec<u16>) -> (r: Vec<u16>)
    ensures
        r@ == tags@,
{
    let mut r: Vec<u16> = Vec::new();
    let mut i: usize = 0;
    while i < tags.len()
        invariant
            i <= tags@.len(),
            r@ == tags@.take(i as int),
        decreases tags@.len() - i,
    {
        r.push(tags[i]);
        proof {
            assert(r@ =~= tags@.take(i + 1));
        }
        i = i + 1;
    }
    proof {
        assert(tags@.take(tags@.len() as int) =~= tags@);
    }
    r
}

impl Runtime {
    /// The arena slot this handle addresses.
    pub closed spec fn spec_node(&self) -> int {
        self.node as int
    }

    /// The arena slot this handle addresses.
    pub fn node_index(&self) -> (r: usize)
        ensures
            r == self.spec_node(),
    {
        self.node
    }

    /// The handle agrees with the arena: its slot exists and the slot's
    /// tag path is the one the handle carries.
    pub open spec fn valid(&self, tree: &Tree) -> bool {
        &&& tree.wf()
        &&& 0 <= self.spec_node() < tree.nodes_seq().len()
        &&& tree.path_of(self.spec_node()) == self@
    }

    /// Opens a fresh synchronization scope: a new root slot and a
    /// handle at it.
    pub fn new(tree: &mut Tree) -> (r: Runtime)
        requires
            old(tree).wf(),
        ensures
            final(tree).wf(),
            r.valid(final(tree)),
            r@ == Seq::<u16>::empty(),
            r.spec_node() == old(tree).nodes_seq().len(),
            final(tree).nodes_seq().len() == old(tree).nodes_seq().len() + 1,
            forall|i: int|
                0 <= i < old(tree).nodes_seq().len() ==> final(tree).nodes_seq()[i] == old(
                    tree,
                ).nodes_seq()[i],
            node_cached(final(tree).nodes_seq()[r.spec_node()]) is None,
    {
        let node: usize = tree.add_root();
        Runtime { node, path: Vec::new() }
    }

    /// A handle at a child slot of this one, mounted at `tag`.  The
    /// new slot shares this handle's chain of ancestors; every older
    /// handle stays valid.
    pub fn nested(&self, tree: &mut Tree, tag: u16) -> (r: Runtime)
        requires
            self.valid(old(tree)),
        ensures
            final(tree).wf(),
            r.valid(final(tree)),
            self.valid(final(tree)),
            r@ == self@.push(tag),
            r.spec_node() == old(tree).nodes_seq().len(),
            node_parent(final(tree).nodes_seq()[r.spec_node()]) == Some(self.spec_node() as usize),
            node_cached(final(tree).nodes_seq()[r.spec_node()]) is None,
            final(tree).nodes_seq().len() == old(tree).nodes_seq().len() + 1,
            forall|i: int|
                0 <= i < old(tree).nodes_seq().len() ==> final(tree).nodes_seq()[i] == old(
                    tree,
                ).nodes_seq()[i],
    {
        let node: usize = tree.add_child(self.node, tag);
        let mut path: Vec<u16> = copy_tags(&self.path);
        path.push(tag);
        proof {
            let n0 = old(tree).nodes_seq().len() as int;
            assert forall|j: int|
                0 <= j < n0 implies same_shape(
                #[trigger] old(tree).nodes_seq()[j],
                #[trigger] tree.nodes_seq()[j],
            ) by {}
            lemma_path_of_shape(*old(tree), *tree, n0, self.spec_node());
            assert(tree.path_of(node as int) == tree.path_of(self.spec_node()).push(tag));
        }
        Runtime { node, path }
    }

    /// A handle at this one's parent slot.  Asking for the parent of a
    /// root is a logic error and is ruled out by contract.
    pub fn parent(&self, tree: &Tree) -> (r: Runtime)
        requires
            self.valid(tree),
            self@.len() > 0,
        ensures
            r.valid(tree),
            r@ == self@.drop_last(),
            node_parent(tree.nodes_seq()[self.spec_node()]) == Some(r.spec_node() as usize),
    {
        proof {
            if tree.nodes_seq()[self.spec_node()] is Root {
                assert(tree.path_of(self.spec_node()) == Seq::<u16>::empty());
            }
        }
        let p: usize = match tree.parent_of(self.node) {
            Some(p) => p,
            None => {
                proof {
                    assert(false);
                }
                0
            },
        };
        let mut path: Vec<u16> = copy_tags(&self.path);
        path.pop();
        proof {
            match tree.nodes_seq()[self.spec_node()] {
                Node::Child { parent, inner } => {
                    assert(parent == p);
                    assert(tree.path_of(self.spec_node()) == tree.path_of(parent as int).push(
                        inner.spec_tag(),
                    ));
                    assert(tree.path_of(p as int) =~= self@.drop_last());
                },
                Node::Root { .. } => {
                    assert(false);
                },
            }
        }
        Runtime { node: p, path }
    }

    /// The memoized size of this position, or — when none is set —
    /// the result of `compute`, memoized and returned.  `compute` runs
    /// only when no size was memoized.
    pub fn get_or_set_cached_size_from<F: FnOnce() -> u32>(
        &self,
        tree: &mut Tree,
        compute: F,
    ) -> (r: u32)
        requires
            self.valid(old(tree)),
            node_cached(old(tree).nodes_seq()[self.spec_node()]) is None ==> call_requires(
                compute,
                (),
            ),
        ensures
            final(tree).wf(),
            self.valid(final(tree)),
            final(tree).nodes_seq().len() == old(tree).nodes_seq().len(),
            match node_cached(old(tree).nodes_seq()[self.spec_node()]) {
                Some(n) => r == n && *final(tree) == *old(tree),
                None => {
                    &&& call_ensures(compute, (), r)
                    &&& node_cached(final(tree).nodes_seq()[self.spec_node()]) == Some(r)
                    &&& same_shape(
                        final(tree).nodes_seq()[self.spec_node()],
                        old(tree).nodes_seq()[self.spec_node()],
                    )
                    &&& forall|j: int|
                        0 <= j < old(tree).nodes_seq().len() && j != self.spec_node()
                            ==> final(tree).nodes_seq()[j] == old(tree).nodes_seq()[j]
                },
            },
    {
        match tree.cached_size_of(self.node) {
            Some(n) => n,
            None => {
                let computed: u32 = compute();
                tree.set_cached_size(self.node, computed);
                proof {
                    let n0 = old(tree).nodes_seq().len() as int;
                    assert forall|j: int|
                        0 <= j < n0 implies same_shape(
                        #[trigger] old(tree).nodes_seq()[j],
                        #[trigger] tree.nodes_seq()[j],
                    ) by {}
                    lemma_path_of_shape(*old(tree), *tree, n0, self.spec_node());
                }
                computed
            },
        }
    }

    /// Clears the memoized size here and at every ancestor up to and
    /// including the scope's root; descendants and siblings keep theirs.
    pub fn clear_cached_size(&self, tree: &mut Tree)
        requires
            self.valid(old(tree)),
        ensures
            final(tree).wf(),
            self.valid(final(tree)),
            final(tree).nodes_seq().len() == old(tree).nodes_seq().len(),
            forall|j: int|
                0 <= j < old(tree).nodes_seq().len() ==> if old(tree).on_chain(
                    self.spec_node(),
                    j,
                ) {
                    same_shape(final(tree).nodes_seq()[j], old(tree).nodes_seq()[j])
                        && node_cached(#[trigger] final(tree).nodes_seq()[j]) is None
                } else {
                    final(tree).nodes_seq()[j] == old(tree).nodes_seq()[j]
                },
    {
        Runtime::clear_cached_size_branch(tree, self.node);
        proof {
            let n0 = old(tree).nodes_seq().len() as int;
            assert forall|j: int|
                0 <= j < n0 implies same_shape(
                #[trigger] old(tree).nodes_seq()[j],
                #[trigger] tree.nodes_seq()[j],
            ) by {}
            lemma_path_of_shape(*old(tree), *tree, n0, self.spec_node());
        }
    }

    /// Walks from `node` up to its root, clearing each slot's memoized
    /// size on the way.
    pub fn clear_cached_size_branch(tree: &mut Tree, node: usize)
        requires
            old(tree).wf(),
            node < old(tree).nodes_seq().len(),
        ensures
            final(tree).wf(),
            final(tree).nodes_seq().len() == old(tree).nodes_seq().len(),
            forall|j: int|
                0 <= j < old(tree).nodes_seq().len() ==> if old(tree).on_chain(node as int, j) {
                    same_shape(final(tree).nodes_seq()[j], old(tree).nodes_seq()[j])
                        && node_cached(#[trigger] final(tree).nodes_seq()[j]) is None
                } else {
                    final(tree).nodes_seq()[j] == old(tree).nodes_seq()[j]
                },
        decreases node,
    {
        let parent_opt: Option<usize> = tree.parent_of(node);
        tree.clear_cached_size_at(node);
        let ghost mid = *tree;
        match parent_opt {
            None => {
                proof {
                    assert forall|j: int|
                        0 <= j < old(tree).nodes_seq().len() implies (if old(tree).on_chain(
                        node as int,
                        j,
                    ) {
                        same_shape(tree.nodes_seq()[j], old(tree).nodes_seq()[j]) && node_cached(
                            #[trigger] tree.nodes_seq()[j],
                        ) is None
                    } else {
                        tree.nodes_seq()[j] == old(tree).nodes_seq()[j]
                    }) by {
                        assert(old(tree).on_chain(node as int, j) == (j == node));
                    }
                }
            },
            Some(p) => {
                Runtime::clear_cached_size_branch(tree, p);
                proof {
                    let n0 = old(tree).nodes_seq().len() as int;
                    assert forall|k: int|
                        0 <= k < n0 implies same_shape(
                        #[trigger] old(tree).nodes_seq()[k],
                        #[trigger] mid.nodes_seq()[k],
                    ) by {}
                    assert forall|j: int|
                        0 <= j < n0 implies (if old(tree).on_chain(node as int, j) {
                        same_shape(tree.nodes_seq()[j], old(tree).nodes_seq()[j]) && node_cached(
                            #[trigger] tree.nodes_seq()[j],
                        ) is None
                    } else {
                        tree.nodes_seq()[j] == old(tree).nodes_seq()[j]
                    }) by {
                        lemma_on_chain_shape(*old(tree), mid, n0, p as int, j);
                        assert(old(tree).on_chain(node as int, j) == (j == node
                            || old(tree).on_chain(p as int, j)));
                        if j == node {
                            if old(tree).on_chain(p as int, node as int) {
                                lemma_on_chain_le(*old(tree), p as int, node as int);
                            }
                            assert(!mid.on_chain(p as int, j));
                        }
                    }
                }
            },
        }
    }

    /// Logs an update of the field mounted at `tag` under this
    /// position, carrying the value's serialized bytes.
    pub fn log_update<V: Serialize>(
        &self,
        logger: &mut Logger,
        tag: u16,
        value: &V,
    ) -> (r: Result<(), Error>)
        requires
            value.ser_wf(),
        ensures
            r == Ok::<(), Error>(()),
            final(logger).entries_seq().len() == old(logger).entries_seq().len() + 1,
            entry_matches_update(
                final(logger).entries_seq().last(),
                self@.push(tag),
                value.encoding(),
            ),
            forall|i: int|
                0 <= i < old(logger).entries_seq().len() ==> final(logger).entries_seq()[i] == old(
                    logger,
                ).entries_seq()[i],
    {
        let mut path: Vec<u16> = copy_tags(&self.path);
        path.push(tag);
        logger.log_entry(Entry::new_update(path, value))
    }

    /// Logs an update of this position itself.
    pub fn log_update_in_place<V: Serialize>(&self, logger: &mut Logger, value: &V) -> (r: Result<
        (),
        Error,
    >)
        requires
            value.ser_wf(),
        ensures
            r == Ok::<(), Error>(()),
            final(logger).entries_seq().len() == old(logger).entries_seq().len() + 1,
            entry_matches_update(final(logger).entries_seq().last(), self@, value.encoding()),
            forall|i: int|
                0 <= i < old(logger).entries_seq().len() ==> final(logger).entries_seq()[i] == old(
                    logger,
                ).entries_seq()[i],
    {
        let path: Vec<u16> = copy_tags(&self.path);
        logger.log_entry(Entry::new_update(path, value))
    }

    /// Logs the addition of an item at this position.
    pub fn log_add<V: Serialize>(&self, logger: &mut Logger, item: &V) -> (r: Result<(), Error>)
        requires
            item.ser_wf(),
        ensures
            r == Ok::<(), Error>(()),
            final(logger).entries_seq().len() == old(logger).entries_seq().len() + 1,
            entry_matches_add(final(logger).entries_seq().last(), self@, item.encoding()),
            forall|i: int|
                0 <= i < old(logger).entries_seq().len() ==> final(logger).entries_seq()[i] == old(
                    logger,
                ).entries_seq()[i],
    {
        let path: Vec<u16> = copy_tags(&self.path);
        logger.log_entry(Entry::new_add(path, item))
    }

    /// Logs the removal of the element mounted at `tag` under this
    /// position.  The element's kind types the entry for decode-side
    /// validation; no payload is carried.
    pub fn log_remove<V: Serialize>(&self, logger: &mut Logger, tag: u16) -> (r: Result<(), Error>)
        ensures
            r == Ok::<(), Error>(()),
            final(logger).entries_seq().len() == old(logger).entries_seq().len() + 1,
            entry_matches_remove(final(logger).entries_seq().last(), self@.push(tag)),
            forall|i: int|
                0 <= i < old(logger).entries_seq().len() ==> final(logger).entries_seq()[i] == old(
                    logger,
                ).entries_seq()[i],
    {
        let mut path: Vec<u16> = copy_tags(&self.path);
        path.push(tag);
        logger.log_entry(Entry::new_remove(path))
    }
}

/// Is `e` an update entry at `path` carrying exactly `payload`?
pub open spec fn entry_matches_update(e: Entry, path: Seq<u16>, payload: Seq<u8>) -> bool {
    &&& e.spec_path() == path
    &&& e.spec_kind() == crate::log::EntryKind::Update
    &&& e.spec_payload() == Some(payload)
}

/// Is `e` an addition entry at `path` carrying exactly `payload`?
pub open spec fn entry_matches_add(e: Entry, path: Seq<u16>, payload: Seq<u8>) -> bool {
    &&& e.spec_path() == path
    &&& e.spec_kind() == crate::log::EntryKind::Add
    &&& e.spec_payload() == Some(payload)
}

/// Is `e` a removal entry at `path`, with no payload?
pub open spec fn entry_matches_remove(e: Entry, path: Seq<u16>) -> bool {
    &&& e.spec_path() == path
    &&& e.spec_kind() == crate::log::EntryKind::Remove
    &&& e.spec_payload() is None
}

impl PartialEq for Runtime {
    /// Every runtime compares equal to every other: a handle carries
    /// bookkeeping, not data, and generated record types must be able
    /// to derive equality around it.
    fn eq(&self, _other: &Runtime) -> (r: bool)
        ensures
            r,
    {
        true
    }
}

impl vstd::std_specs::cmp::PartialEqSpecImpl for Runtime {
    open spec fn obeys_eq_spec() -> bool {
        true
    }

    open spec fn eq_spec(&self, _other: &Runtime) -> bool {
        true
    }
}

impl Eq for Runtime {

}

impl WireType for Runtime {
    open spec fn wire_type_spec() -> u8 {
        WIRE_TYPE_SIZED
    }

    proof fn wire_type_valid() {
    }

    fn wire_type() -> u8 {
        WIRE_TYPE_SIZED
    }
}

impl Serialize for Runtime {
    /// A handle serializes as its raw tag path, root to leaf: the
    /// self-contained address change-log entries carry.
    open spec fn encoding(&self) -> Seq<u8> {
        tags_encoding(self@)
    }

    open spec fn ser_wf(&self) -> bool {
        self@.len() <= 0x0FFF_FFFF
    }

    proof fn ser_wf_bound(&self) {
        crate::path::lemma_tags_encoding_len(self@);
    }

    fn compute_size(&self) -> u32 {
        proof {
            crate::path::lemma_tags_encoding_len(self@);
        }
        let mut total: u32 = 0;
        let mut i: usize = 0;
        while i < self.path.len()
            invariant
                i <= self.path@.len(),
                self.path@.len() <= 0x0FFF_FFFF,
                total as nat == tags_encoding(self.path@.take(i as int)).len(),
                total <= 3 * i,
            decreases self.path@.len() - i,
        {
            let tag: u16 = self.path[i];
            let sz: u32 = size_varint_u64(tag as u64);
            proof {
                assert(crate::varint::pow128(3nat) == 2097152) by {
                    reveal_with_fuel(crate::varint::pow128, 4);
                }
                crate::varint::lemma_varint_enc_len_bound(tag as nat, 3nat);
                crate::path::lemma_tags_encoding_push(self.path@.take(i as int), tag);
                assert(self.path@.take(i as int).push(tag) =~= self.path@.take(i + 1));
            }
            total = total + sz;
            i = i + 1;
        }
        proof {
            assert(self.path@.take(self.path@.len() as int) =~= self.path@);
        }
        total
    }

    fn serialize_with_cached_size(&self, writer: &mut Vec<u8>) -> Result<(), Error> {
        write_tags(&self.path, writer);
        Ok(())
    }
}

} // verus!
