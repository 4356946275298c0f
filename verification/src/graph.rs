//! The graph: an arena of nodes behind stable identifiers, a designated
//! root, and the slot-indexed edge list, together with the recursive
//! evaluator that drives execution from the root and annotates every
//! edge with a validity verdict.

use vstd::prelude::*;

use crate::catalogue::NodeKind;
use crate::erase::{kinds_of, DynValue, TypeKey};
use crate::node::{Node, NodeInput, NodeOutput};
use crate::reflect::{best_upto, match_count, InfoModel, PossibleInputs};

verus! {

/// A stable node identifier.  An identifier stays valid until its node
/// is removed; a freed slot is never reused, so a stale identifier can
/// never be confused with a live one.
#[derive(Debug, Clone, Copy, PartialEq, Eq, Structural, Hash)]
pub struct NodeID {
    pub idx: usize,
}

/// The validity verdict of one edge after the last execution.
#[derive(Debug, Clone, Copy, PartialEq, Eq, Structural)]
pub enum ConnectionState {
    Valid,
    Invalid,
    Unevaluated,
}

/// A directed edge: source node, destination node, destination input
/// slot, and the verdict of the last execution.
#[derive(Debug, Clone, Copy, PartialEq, Eq, Structural)]
pub struct Connection {
    pub from: NodeID,
    pub to: NodeID,
    pub input: usize,
    pub state: ConnectionState,
}

impl Connection {
    /// Whether the edge touches the node, as source or destination.
    pub fn connects(&self, node: NodeID) -> (r: bool)
        ensures
            r == (self.from == node || self.to == node),
    {
        self.from == node || self.to == node
    }
}

impl Default for ConnectionState {
    /// A fresh edge has not been evaluated.
    fn default() -> (r: Self)
        ensures
            r == ConnectionState::Unevaluated,
    {
        ConnectionState::Unevaluated
    }
}

/// An execution failure: the node whose transform rejected its inputs,
/// and the values it had collected.
#[derive(Debug)]
pub struct Error {
    pub executing_node: NodeID,
    pub inputs: Vec<DynValue>,
}

/// The node arena: one slot per ever-created node, freed slots left
/// empty.
#[derive(Debug, Clone)]
pub struct NodeArena {
    pub slots: Vec<Option<NodeKind>>,
}

impl NodeArena {
    /// Whether the identifier names a live node.
    pub open spec fn contains_spec(self, id: NodeID) -> bool {
        id.idx < self.slots@.len() && self.slots@[id.idx as int] is Some
    }

    /// The live node behind the identifier.
    pub open spec fn node_at(self, id: NodeID) -> NodeKind
        recommends
            self.contains_spec(id),
    {
        self.slots@[id.idx as int]->0
    }

    pub fn new() -> (r: Self)
        ensures
            r.slots@.len() == 0,
    {
        NodeArena { slots: Vec::new() }
    }

    /// How many slots were ever created.
    pub fn len(&self) -> (r: usize)
        ensures
            r == self.slots@.len(),
    {
        self.slots.len()
    }

    pub fn contains(&self, id: NodeID) -> (r: bool)
        ensures
            r == self.contains_spec(id),
    {
        id.idx < self.slots.len() && matches!(&self.slots[id.idx], Some(_))
    }

    /// Read access to a live node.
    pub fn get<'a>(&'a self, id: NodeID) -> (r: Option<&'a NodeKind>)
        ensures
            r is Some <==> self.contains_spec(id),
            r matches Some(n) ==> *n == self.node_at(id),
    {
        if id.idx >= self.slots.len() {
            return None;
        }
        match &self.slots[id.idx] {
            Some(n) => Some(n),
            None => None,
        }
    }

    /// Add a node in a fresh slot and hand back its identifier.
    pub fn insert(&mut self, node: NodeKind) -> (r: NodeID)
        ensures
            final(self).slots@ == old(self).slots@.push(Some(node)),
            r.idx == old(self).slots@.len(),
            final(self).contains_spec(r),
            !old(self).contains_spec(r),
            final(self).node_at(r) == node,
    {
        let idx = self.slots.len();
        self.slots.push(Some(node));
        NodeID { idx }
    }

    /// Move a node out of its slot, leaving the slot empty.
    pub fn take(&mut self, id: NodeID) -> (r: Option<NodeKind>)
        requires
            id.idx < old(self).slots@.len(),
        ensures
            final(self).slots@ == old(self).slots@.update(id.idx as int, None),
            r == old(self).slots@[id.idx as int],
    {
        let ghost prev = self.slots@;
        let s = self.slots.remove(id.idx);
        self.slots.insert(id.idx, None);
        proof {
            assert(self.slots@ =~= prev.update(id.idx as int, None));
        }
        s
    }

    /// Put a node back into its empty slot.
    pub fn put(&mut self, id: NodeID, node: NodeKind)
        requires
            id.idx < old(self).slots@.len(),
            old(self).slots@[id.idx as int] is None,
        ensures
            final(self).slots@ == old(self).slots@.update(id.idx as int, Some(node)),
    {
        let ghost prev = self.slots@;
        let _ = self.slots.remove(id.idx);
        self.slots.insert(id.idx, Some(node));
        proof {
            assert(self.slots@ =~= prev.update(id.idx as int, Some(node)));
        }
    }
}


/// Whether the edge list holds this very edge.
pub open spec fn in_seq(c: Connection, s: Seq<Connection>) -> bool {
    exists|i: int| 0 <= i < s.len() && s[i] == c
}

/// No two edges share a destination slot.
pub open spec fn slots_unique(s: Seq<Connection>) -> bool {
    forall|j1: int, j2: int|
        #![trigger s[j1], s[j2]]
        0 <= j1 < j2 < s.len() ==> !(s[j1].to == s[j2].to && s[j1].input == s[j2].input)
}

/// Every edge references live nodes.
pub open spec fn endpoints_ok(a: NodeArena, s: Seq<Connection>) -> bool {
    forall|j: int|
        0 <= j < s.len() ==> a.contains_spec(#[trigger] s[j].from) && a.contains_spec(s[j].to)
}

/// The edges that satisfy `keep`, in order.
pub open spec fn filter_conns(s: Seq<Connection>, keep: spec_fn(Connection) -> bool) -> Seq<
    Connection,
>
    decreases s.len(),
{
    if s.len() == 0 {
        Seq::empty()
    } else {
        let rest = filter_conns(s.drop_last(), keep);
        if keep(s.last()) {
            rest.push(s.last())
        } else {
            rest
        }
    }
}

/// Filtering keeps only edges of the original list, keeps only edges
/// satisfying the predicate, and preserves slot uniqueness.
pub proof fn lemma_filter_conns_props(s: Seq<Connection>, keep: spec_fn(Connection) -> bool)
    ensures
        forall|j: int|
            0 <= j < filter_conns(s, keep).len() ==> in_seq(#[trigger] filter_conns(s, keep)[j], s)
                && keep(filter_conns(s, keep)[j]),
        slots_unique(s) ==> slots_unique(filter_conns(s, keep)),
    decreases s.len(),
{
    if s.len() > 0 {
        let dl = s.drop_last();
        let last = s.last();
        lemma_filter_conns_props(dl, keep);
        let rest = filter_conns(dl, keep);
        let whole = filter_conns(s, keep);
        assert forall|j: int|
            0 <= j < whole.len() implies in_seq(#[trigger] whole[j], s) && keep(whole[j]) by {
            if keep(last) && j == whole.len() - 1 {
                assert(whole[j] == last);
                assert(s[s.len() - 1] == last);
            } else {
                assert(whole[j] == rest[j]);
                assert(in_seq(rest[j], dl));
                let i = choose|i: int| 0 <= i < dl.len() && dl[i] == rest[j];
                assert(s[i] == rest[j]);
            }
        }
        if slots_unique(s) {
            assert forall|j1: int, j2: int|
                #![trigger dl[j1], dl[j2]]
                0 <= j1 < j2 < dl.len() implies !(dl[j1].to == dl[j2].to && dl[j1].input
                == dl[j2].input) by {
                assert(dl[j1] == s[j1]);
                assert(dl[j2] == s[j2]);
            }
            assert(slots_unique(dl));
            assert forall|j1: int, j2: int|
                #![trigger whole[j1], whole[j2]]
                0 <= j1 < j2 < whole.len() implies !(whole[j1].to == whole[j2].to
                && whole[j1].input == whole[j2].input) by {
                if keep(last) && j2 == whole.len() - 1 {
                    assert(whole[j1] == rest[j1]);
                    assert(in_seq(rest[j1], dl));
                    let i = choose|i: int| 0 <= i < dl.len() && dl[i] == rest[j1];
                    assert(s[i] == whole[j1]);
                    assert(s[s.len() - 1] == whole[j2]);
                } else {
                    assert(whole[j1] == rest[j1]);
                    assert(whole[j2] == rest[j2]);
                }
            }
        }
    }
}

/// An edge of the list keeps live endpoints.
pub proof fn lemma_in_seq_endpoints(a: NodeArena, s: Seq<Connection>, c: Connection)
    requires
        endpoints_ok(a, s),
        in_seq(c, s),
    ensures
        a.contains_spec(c.from),
        a.contains_spec(c.to),
{
    let i = choose|i: int| 0 <= i < s.len() && s[i] == c;
    assert(a.contains_spec(s[i].from) && a.contains_spec(s[i].to));
}

/// The edges that remain when one destination slot is vacated.
pub open spec fn prune_slot(conns: Seq<Connection>, to: NodeID, input: usize) -> Seq<Connection> {
    filter_conns(conns, |c: Connection| !(c.to == to && c.input == input))
}

/// The edges that remain when a node is removed.
pub open spec fn prune_node(conns: Seq<Connection>, id: NodeID) -> Seq<Connection> {
    filter_conns(conns, |c: Connection| !(c.from == id || c.to == id))
}

/// The edges that remain when one specific edge is removed.
pub open spec fn prune_edge(
    conns: Seq<Connection>,
    from: NodeID,
    to: NodeID,
    input: usize,
) -> Seq<Connection> {
    filter_conns(conns, |c: Connection| !(c.from == from && c.to == to && c.input == input))
}

/// The edges into one destination slot, in order.
pub open spec fn slot_edges(conns: Seq<Connection>, to: NodeID, input: usize) -> Seq<Connection> {
    filter_conns(conns, |c: Connection| c.to == to && c.input == input)
}

/// What `connect` leaves in the edge list: the vacated slot, then the
/// new unevaluated edge.
pub open spec fn connect_spec(
    conns: Seq<Connection>,
    from: NodeID,
    to: NodeID,
    input: usize,
) -> Seq<Connection> {
    prune_slot(conns, to, input).push(
        Connection { from, to, input, state: ConnectionState::Unevaluated },
    )
}

/// A list without edges into a slot has no slot edges at all.
proof fn lemma_slot_edges_empty(s: Seq<Connection>, to: NodeID, input: usize)
    requires
        forall|j: int| 0 <= j < s.len() ==> !(#[trigger] s[j].to == to && s[j].input == input),
    ensures
        slot_edges(s, to, input) == Seq::<Connection>::empty(),
    decreases s.len(),
{
    if s.len() > 0 {
        let dl = s.drop_last();
        assert forall|j: int|
            0 <= j < dl.len() implies !(#[trigger] dl[j].to == to && dl[j].input == input) by {
            assert(dl[j] == s[j]);
        }
        lemma_slot_edges_empty(dl, to, input);
        assert(s[s.len() - 1] == s.last());
    }
}

/// Replacing a slot's source: connecting one source into a destination
/// slot, then connecting another source into the same slot, leaves
/// exactly one edge into that slot, the later one, unevaluated.
pub proof fn lemma_connect_replaces(
    conns: Seq<Connection>,
    a: NodeID,
    c: NodeID,
    to: NodeID,
    input: usize,
)
    ensures
        ({
            let after1 = connect_spec(conns, a, to, input);
            let after2 = connect_spec(after1, c, to, input);
            slot_edges(after2, to, input) =~= seq![
                Connection { from: c, to, input, state: ConnectionState::Unevaluated },
            ]
        }),
{
    let after1 = connect_spec(conns, a, to, input);
    let after2 = connect_spec(after1, c, to, input);
    let pruned2 = prune_slot(after1, to, input);
    lemma_filter_conns_props(after1, |cc: Connection| !(cc.to == to && cc.input == input));
    lemma_slot_edges_empty(pruned2, to, input);
    assert(after2.drop_last() =~= pruned2);
    assert(after2.last() == Connection { from: c, to, input, state: ConnectionState::Unevaluated });
}

/// Build the edge list that a filtering spec describes.
fn prune_slot_exec(conns: &Vec<Connection>, to: NodeID, input: usize) -> (r: Vec<Connection>)
    ensures
        r@ == prune_slot(conns@, to, input),
{
    let mut r: Vec<Connection> = Vec::new();
    let mut i: usize = 0;
    while i < conns.len()
        invariant
            i <= conns@.len(),
            r@ == prune_slot(conns@.subrange(0, i as int), to, input),
        decreases conns@.len() - i,
    {
        let co = conns[i];
        proof {
            assert(conns@.subrange(0, i + 1).drop_last() =~= conns@.subrange(0, i as int));
            assert(conns@.subrange(0, i + 1).last() == co);
        }
        if !(co.to == to && co.input == input) {
            r.push(co);
        }
        i += 1;
    }
    proof {
        assert(conns@.subrange(0, conns@.len() as int) =~= conns@);
    }
    r
}

/// Build the edge list with every edge touching a node removed.
fn prune_node_exec(conns: &Vec<Connection>, id: NodeID) -> (r: Vec<Connection>)
    ensures
        r@ == prune_node(conns@, id),
{
    let mut r: Vec<Connection> = Vec::new();
    let mut i: usize = 0;
    while i < conns.len()
        invariant
            i <= conns@.len(),
            r@ == prune_node(conns@.subrange(0, i as int), id),
        decreases conns@.len() - i,
    {
        let co = conns[i];
        proof {
            assert(conns@.subrange(0, i + 1).drop_last() =~= conns@.subrange(0, i as int));
            assert(conns@.subrange(0, i + 1).last() == co);
        }
        if !(co.from == id || co.to == id) {
            r.push(co);
        }
        i += 1;
    }
    proof {
        assert(conns@.subrange(0, conns@.len() as int) =~= conns@);
    }
    r
}

/// Build the edge list with one specific edge removed.
fn prune_edge_exec(conns: &Vec<Connection>, from: NodeID, to: NodeID, input: usize) -> (r: Vec<
    Connection,
>)
    ensures
        r@ == prune_edge(conns@, from, to, input),
{
    let mut r: Vec<Connection> = Vec::new();
    let mut i: usize = 0;
    while i < conns.len()
        invariant
            i <= conns@.len(),
            r@ == prune_edge(conns@.subrange(0, i as int), from, to, input),
        decreases conns@.len() - i,
    {
        let co = conns[i];
        proof {
            assert(conns@.subrange(0, i + 1).drop_last() =~= conns@.subrange(0, i as int));
            assert(conns@.subrange(0, i + 1).last() == co);
        }
        if !(co.from == from && co.to == to && co.input == input) {
            r.push(co);
        }
        i += 1;
    }
    proof {
        assert(conns@.subrange(0, conns@.len() as int) =~= conns@);
    }
    r
}

/// The arena of nodes, the designated root, and the edge list.
#[derive(Debug, Clone)]
pub struct Graph {
    pub root: NodeID,
    pub nodes: NodeArena,
    pub connections: Vec<Connection>,
}

impl Graph {
    /// Structural soundness: the root is live, every edge references
    /// live nodes, and no two edges share a destination slot.
    pub open spec fn wf(self) -> bool {
        &&& self.nodes.contains_spec(self.root)
        &&& endpoints_ok(self.nodes, self.connections@)
        &&& slots_unique(self.connections@)
    }

    /// A graph holding only its root node.
    pub fn with_root(root: NodeKind) -> (r: Self)
        ensures
            r.wf(),
            r.nodes.slots@ =~= seq![Some(root)],
            r.root.idx == 0,
            r.connections@ =~= Seq::<Connection>::empty(),
    {
        let mut nodes = NodeArena::new();
        let root_id = nodes.insert(root);
        Graph { root: root_id, nodes, connections: Vec::new() }
    }

    /// The root's identifier; the root is always live.
    pub fn root(&self) -> (r: NodeID)
        ensures
            r == self.root,
    {
        self.root
    }

    /// Read access to the node arena.
    pub fn nodes(&self) -> (r: &NodeArena)
        ensures
            *r == self.nodes,
    {
        &self.nodes
    }

    /// Mutable access to a live node: the graph's structure stays as it
    /// is, only that node's own state may change through the borrow.
    pub fn node_mut(&mut self, id: NodeID) -> (r: Option<&mut NodeKind>)
        requires
            old(self).wf(),
        ensures
            r is Some <==> old(self).nodes.contains_spec(id),
            r is None ==> final(self).root == old(self).root && final(self).connections == old(
                self,
            ).connections && final(self).nodes.slots@ =~= old(self).nodes.slots@,
            r matches Some(n) ==> {
                &&& *n == old(self).nodes.node_at(id)
                &&& final(self).root == old(self).root
                &&& final(self).connections == old(self).connections
                &&& final(self).nodes.slots@ == old(self).nodes.slots@.update(
                    id.idx as int,
                    Some(*final(n)),
                )
            },
    {
        if id.idx >= self.nodes.slots.len() {
            return None;
        }
        let slot = vstd::std_specs::vec::vec_index_mut(&mut self.nodes.slots, id.idx);
        match slot.as_mut() {
            Some(n) => Some(n),
            None => None,
        }
    }

    /// Read access to the edge list.
    pub fn connections(&self) -> (r: &Vec<Connection>)
        ensures
            *r == self.connections,
    {
        &self.connections
    }

    /// Add a node and hand back its fresh identifier.
    pub fn add_node(&mut self, node: NodeKind) -> (r: NodeID)
        requires
            old(self).wf(),
        ensures
            final(self).wf(),
            final(self).nodes.slots@ == old(self).nodes.slots@.push(Some(node)),
            final(self).connections == old(self).connections,
            final(self).root == old(self).root,
            final(self).nodes.contains_spec(r),
            !old(self).nodes.contains_spec(r),
            final(self).nodes.node_at(r) == node,
            r.idx == old(self).nodes.slots@.len(),
    {
        let r = self.nodes.insert(node);
        proof {
            assert forall|j: int|
                0 <= j < self.connections@.len() implies self.nodes.contains_spec(
                #[trigger] self.connections@[j].from,
            ) && self.nodes.contains_spec(self.connections@[j].to) by {
                assert(old(self).nodes.contains_spec(self.connections@[j].from));
                assert(old(self).nodes.contains_spec(self.connections@[j].to));
            }
        }
        r
    }

    /// Add an already-boxed node.
    pub fn add_boxed_node(&mut self, node: Box<NodeKind>) -> (r: NodeID)
        requires
            old(self).wf(),
        ensures
            final(self).wf(),
            final(self).nodes.slots@ == old(self).nodes.slots@.push(Some(*node)),
            final(self).connections == old(self).connections,
            final(self).root == old(self).root,
            final(self).nodes.contains_spec(r),
            final(self).nodes.node_at(r) == *node,
    {
        self.add_node(*node)
    }

    /// Remove a node and prune every edge touching it.  Removing the
    /// root does nothing.
    pub fn remove_node(&mut self, id: NodeID) -> (r: Option<NodeKind>)
        requires
            old(self).wf(),
        ensures
            final(self).wf(),
            final(self).root == old(self).root,
            id == old(self).root ==> *final(self) == *old(self) && r is None,
            id != old(self).root && !old(self).nodes.contains_spec(id) ==> final(self).nodes
                == old(self).nodes && r is None && final(self).connections@ == prune_node(
                old(self).connections@,
                id,
            ),
            id != old(self).root && old(self).nodes.contains_spec(id) ==> {
                &&& r == Some(old(self).nodes.node_at(id))
                &&& final(self).nodes.slots@ == old(self).nodes.slots@.update(id.idx as int, None)
                &&& final(self).connections@ == prune_node(old(self).connections@, id)
            },
    {
        if id == self.root {
            return None;
        }
        let ghost oldconns = self.connections@;
        let pruned = prune_node_exec(&self.connections, id);
        self.connections = pruned;
        proof {
            lemma_filter_conns_props(oldconns, |c: Connection| !(c.from == id || c.to == id));
            assert forall|j: int|
                0 <= j < self.connections@.len() implies old(self).nodes.contains_spec(
                #[trigger] self.connections@[j].from,
            ) && old(self).nodes.contains_spec(self.connections@[j].to) && !(
            self.connections@[j].from == id || self.connections@[j].to == id) by {
                lemma_in_seq_endpoints(old(self).nodes, oldconns, self.connections@[j]);
            }
        }
        if !self.nodes.contains(id) {
            return None;
        }
        let taken = self.nodes.take(id);
        proof {
            assert forall|j: int|
                0 <= j < self.connections@.len() implies self.nodes.contains_spec(
                #[trigger] self.connections@[j].from,
            ) && self.nodes.contains_spec(self.connections@[j].to) by {
                assert(self.connections@[j].from.idx != id.idx);
                assert(self.connections@[j].to.idx != id.idx);
            }
        }
        taken
    }

    /// Connect a source to a destination slot, replacing whatever edge
    /// occupied that slot; the new edge starts unevaluated.
    pub fn connect(&mut self, from: NodeID, to: NodeID, input: usize)
        requires
            old(self).wf(),
            old(self).nodes.contains_spec(from),
            old(self).nodes.contains_spec(to),
        ensures
            final(self).wf(),
            final(self).root == old(self).root,
            final(self).nodes == old(self).nodes,
            final(self).connections@ == connect_spec(old(self).connections@, from, to, input),
    {
        let ghost oldconns = self.connections@;
        let mut pruned = prune_slot_exec(&self.connections, to, input);
        proof {
            lemma_filter_conns_props(oldconns, |c: Connection| !(c.to == to && c.input == input));
        }
        pruned.push(Connection { from, to, input, state: ConnectionState::Unevaluated });
        self.connections = pruned;
        proof {
            let ghost ps = prune_slot(oldconns, to, input);
            assert forall|j: int|
                0 <= j < self.connections@.len() implies self.nodes.contains_spec(
                #[trigger] self.connections@[j].from,
            ) && self.nodes.contains_spec(self.connections@[j].to) by {
                if j < ps.len() {
                    assert(self.connections@[j] == ps[j]);
                    lemma_in_seq_endpoints(self.nodes, oldconns, ps[j]);
                }
            }
            assert forall|j1: int, j2: int|
                #![trigger self.connections@[j1], self.connections@[j2]]
                0 <= j1 < j2 < self.connections@.len() implies !(self.connections@[j1].to
                == self.connections@[j2].to && self.connections@[j1].input
                == self.connections@[j2].input) by {
                if j2 == self.connections@.len() - 1 {
                    assert(self.connections@[j1] == ps[j1]);
                } else {
                    assert(self.connections@[j1] == ps[j1]);
                    assert(self.connections@[j2] == ps[j2]);
                }
            }
        }
    }

    /// Remove one specific edge, identified by its source, destination
    /// and slot; the edge's verdict does not matter.
    pub fn disconnect(&mut self, from: NodeID, to: NodeID, input: usize)
        requires
            old(self).wf(),
        ensures
            final(self).wf(),
            final(self).root == old(self).root,
            final(self).nodes == old(self).nodes,
            final(self).connections@ == prune_edge(old(self).connections@, from, to, input),
    {
        let ghost oldconns = self.connections@;
        let pruned = prune_edge_exec(&self.connections, from, to, input);
        self.connections = pruned;
        proof {
            lemma_filter_conns_props(
                oldconns,
                |c: Connection| !(c.from == from && c.to == to && c.input == input),
            );
            assert forall|j: int|
                0 <= j < self.connections@.len() implies self.nodes.contains_spec(
                #[trigger] self.connections@[j].from,
            ) && self.nodes.contains_spec(self.connections@[j].to) by {
                lemma_in_seq_endpoints(self.nodes, oldconns, self.connections@[j]);
            }
        }
    }
}

/// Whether the identifier names a live slot.
pub open spec fn live(slots: Seq<Option<NodeKind>>, id: NodeID) -> bool {
    id.idx < slots.len() && slots[id.idx as int] is Some
}

/// The node behind a live slot.
pub open spec fn node_of(slots: Seq<Option<NodeKind>>, id: NodeID) -> NodeKind
    recommends
        live(slots, id),
{
    slots[id.idx as int]->0
}

/// Two arenas with the same slots, each live in one exactly when live in
/// the other.
pub open spec fn same_shape(s1: Seq<Option<NodeKind>>, s2: Seq<Option<NodeKind>>) -> bool {
    s2.len() == s1.len() && forall|i: int|
        0 <= i < s1.len() ==> ((#[trigger] s2[i]) is Some <==> s1[i] is Some)
}

/// Two edge lists with the same endpoints and slots, position by
/// position; only the verdicts may differ.
pub open spec fn same_edges(c1: Seq<Connection>, c2: Seq<Connection>) -> bool {
    c2.len() == c1.len() && forall|j: int|
        #![trigger c2[j]]
        0 <= j < c1.len() ==> c2[j].from == c1[j].from && c2[j].to == c1[j].to && c2[j].input
            == c1[j].input
}

/// The edges into one destination, in edge-list order.
pub open spec fn incoming_of(conns: Seq<Connection>, id: NodeID) -> Seq<Connection>
    decreases conns.len(),
{
    if conns.len() == 0 {
        Seq::empty()
    } else {
        let rest = incoming_of(conns.drop_last(), id);
        if conns.last().to == id {
            rest.push(conns.last())
        } else {
            rest
        }
    }
}

proof fn lemma_incoming_membership(conns: Seq<Connection>, id: NodeID)
    ensures
        forall|j: int|
            0 <= j < incoming_of(conns, id).len() ==> in_seq(
                #[trigger] incoming_of(conns, id)[j],
                conns,
            ),
    decreases conns.len(),
{
    if conns.len() > 0 {
        let dl = conns.drop_last();
        lemma_incoming_membership(dl, id);
        let rest = incoming_of(dl, id);
        let whole = incoming_of(conns, id);
        assert forall|j: int| 0 <= j < whole.len() implies in_seq(#[trigger] whole[j], conns) by {
            if conns.last().to == id && j == whole.len() - 1 {
                assert(whole[j] == conns.last());
                assert(conns[conns.len() - 1] == conns.last());
            } else {
                assert(whole[j] == rest[j]);
                assert(in_seq(rest[j], dl));
                let i = choose|i: int| 0 <= i < dl.len() && dl[i] == rest[j];
                assert(conns[i] == rest[j]);
            }
        }
    }
}

/// A connection placed before every held connection with a larger slot
/// index, after every other.
pub open spec fn insert_by_input(c: Connection, s: Seq<Connection>) -> Seq<Connection>
    decreases s.len(),
{
    if s.len() == 0 {
        seq![c]
    } else if c.input < s[0].input {
        seq![c] + s
    } else {
        seq![s[0]] + insert_by_input(c, s.drop_first())
    }
}

/// The connections ordered by slot index, by left-to-right insertion.
pub open spec fn sort_by_input(s: Seq<Connection>) -> Seq<Connection>
    decreases s.len(),
{
    if s.len() == 0 {
        Seq::empty()
    } else {
        insert_by_input(s.last(), sort_by_input(s.drop_last()))
    }
}

/// The edges into one destination, ordered by slot index: slot index,
/// not discovery order, defines the argument order.
pub open spec fn sorted_incoming(conns: Seq<Connection>, id: NodeID) -> Seq<Connection> {
    sort_by_input(incoming_of(conns, id))
}

proof fn lemma_insert_membership(c: Connection, s: Seq<Connection>)
    ensures
        insert_by_input(c, s).len() == s.len() + 1,
        forall|j: int|
            0 <= j < insert_by_input(c, s).len() ==> #[trigger] insert_by_input(c, s)[j] == c
                || in_seq(insert_by_input(c, s)[j], s),
    decreases s.len(),
{
    if s.len() > 0 && !(c.input < s[0].input) {
        lemma_insert_membership(c, s.drop_first());
        let whole = insert_by_input(c, s);
        let rest = insert_by_input(c, s.drop_first());
        assert forall|j: int|
            0 <= j < whole.len() implies #[trigger] whole[j] == c || in_seq(whole[j], s) by {
            if j == 0 {
                assert(whole[0] == s[0]);
                assert(in_seq(s[0], s));
            } else {
                assert(whole[j] == rest[j - 1]);
                if rest[j - 1] == c {
                } else {
                    assert(in_seq(rest[j - 1], s.drop_first()));
                    let i = choose|i: int|
                        0 <= i < s.drop_first().len() && s.drop_first()[i] == rest[j - 1];
                    assert(s[i + 1] == rest[j - 1]);
                }
            }
        }
    }
}

proof fn lemma_sort_membership(s: Seq<Connection>)
    ensures
        sort_by_input(s).len() == s.len(),
        forall|j: int|
            0 <= j < sort_by_input(s).len() ==> in_seq(#[trigger] sort_by_input(s)[j], s),
    decreases s.len(),
{
    if s.len() > 0 {
        let dl = s.drop_last();
        lemma_sort_membership(dl);
        lemma_insert_membership(s.last(), sort_by_input(dl));
        let whole = sort_by_input(s);
        assert forall|j: int| 0 <= j < whole.len() implies in_seq(#[trigger] whole[j], s) by {
            if whole[j] == s.last() {
                assert(s[s.len() - 1] == s.last());
            } else {
                assert(in_seq(whole[j], sort_by_input(dl)));
                let i = choose|i: int|
                    0 <= i < sort_by_input(dl).len() && sort_by_input(dl)[i] == whole[j];
                assert(in_seq(sort_by_input(dl)[i], dl));
                let k = choose|k: int| 0 <= k < dl.len() && dl[k] == whole[j];
                assert(s[k] == whole[j]);
            }
        }
    }
}

/// Every source and destination of the ordered incoming edges of a
/// well-formed edge list is live, and every such edge targets the node.
proof fn lemma_sorted_sources(a: NodeArena, conns: Seq<Connection>, id: NodeID)
    requires
        endpoints_ok(a, conns),
    ensures
        forall|j: int|
            #![trigger sorted_incoming(conns, id)[j]]
            0 <= j < sorted_incoming(conns, id).len() ==> a.contains_spec(
                sorted_incoming(conns, id)[j].from,
            ) && a.contains_spec(sorted_incoming(conns, id)[j].to),
{
    let inc = incoming_of(conns, id);
    lemma_incoming_membership(conns, id);
    lemma_sort_membership(inc);
    assert forall|j: int|
        #![trigger sorted_incoming(conns, id)[j]]
        0 <= j < sorted_incoming(conns, id).len() implies a.contains_spec(
        sorted_incoming(conns, id)[j].from,
    ) && a.contains_spec(sorted_incoming(conns, id)[j].to) by {
        let c = sorted_incoming(conns, id)[j];
        assert(sort_by_input(inc)[j] == c);
        assert(in_seq(c, inc));
        let i = choose|i: int| 0 <= i < inc.len() && inc[i] == c;
        assert(in_seq(inc[i], conns));
        assert(in_seq(c, conns));
        lemma_in_seq_endpoints(a, conns, c);
    }
}

proof fn lemma_insert_at(c: Connection, s: Seq<Connection>, k: int)
    requires
        0 <= k <= s.len(),
        forall|j: int| 0 <= j < k ==> #[trigger] s[j].input <= c.input,
        k < s.len() ==> c.input < s[k].input,
    ensures
        insert_by_input(c, s) == s.subrange(0, k) + seq![c] + s.skip(k),
    decreases k,
{
    if k == 0 {
        if s.len() == 0 {
            assert(insert_by_input(c, s) =~= s.subrange(0, 0) + seq![c] + s.skip(0));
        } else {
            assert(insert_by_input(c, s) =~= s.subrange(0, 0) + seq![c] + s.skip(0));
        }
    } else {
        let df = s.drop_first();
        assert forall|j: int| 0 <= j < k - 1 implies #[trigger] df[j].input <= c.input by {
            assert(df[j] == s[j + 1]);
        }
        assert(k - 1 < df.len() ==> c.input < df[k - 1].input);
        lemma_insert_at(c, df, k - 1);
        assert(insert_by_input(c, s) =~= s.subrange(0, k) + seq![c] + s.skip(k));
    }
}

/// Insert one connection into a slot-ordered list, keeping the order.
fn insert_sorted(r: &mut Vec<Connection>, c: Connection)
    ensures
        final(r)@ == insert_by_input(c, old(r)@),
{
    let ghost orig = r@;
    let mut k: usize = 0;
    while k < r.len() && r[k].input <= c.input
        invariant
            r@ == orig,
            k <= orig.len(),
            forall|j: int| 0 <= j < k ==> #[trigger] orig[j].input <= c.input,
        decreases orig.len() - k,
    {
        k += 1;
    }
    proof {
        lemma_insert_at(c, orig, k as int);
    }
    r.insert(k, c);
    proof {
        assert(r@ =~= orig.subrange(0, k as int) + seq![c] + orig.skip(k as int));
    }
}

/// Collect the edges into a destination, ordered by slot index.
fn sorted_incoming_exec(conns: &Vec<Connection>, id: NodeID) -> (r: Vec<Connection>)
    ensures
        r@ == sorted_incoming(conns@, id),
{
    let mut r: Vec<Connection> = Vec::new();
    let mut i: usize = 0;
    while i < conns.len()
        invariant
            i <= conns@.len(),
            r@ == sorted_incoming(conns@.subrange(0, i as int), id),
        decreases conns@.len() - i,
    {
        let c = conns[i];
        proof {
            assert(conns@.subrange(0, i + 1).drop_last() =~= conns@.subrange(0, i as int));
            assert(conns@.subrange(0, i + 1).last() == c);
        }
        if c.to == id {
            proof {
                let previnc = incoming_of(conns@.subrange(0, i as int), id);
                assert(incoming_of(conns@.subrange(0, i + 1), id) == previnc.push(c));
                assert(previnc.push(c).drop_last() =~= previnc);
                assert(previnc.push(c).last() == c);
            }
            insert_sorted(&mut r, c);
        }
        i += 1;
    }
    proof {
        assert(conns@.subrange(0, conns@.len() as int) =~= conns@);
    }
    r
}

/// How many incoming edges of the node have a smaller slot index: the
/// argument position this edge's value occupies.
pub open spec fn rank_count(conns: Seq<Connection>, id: NodeID, input: int) -> int
    decreases conns.len(),
{
    if conns.len() == 0 {
        0
    } else {
        rank_count(conns.drop_last(), id, input) + if conns.last().to == id
            && conns.last().input < input {
            1int
        } else {
            0int
        }
    }
}

proof fn lemma_rank_count_bound(conns: Seq<Connection>, id: NodeID, input: int)
    ensures
        0 <= rank_count(conns, id, input) <= conns.len(),
    decreases conns.len(),
{
    if conns.len() > 0 {
        lemma_rank_count_bound(conns.drop_last(), id, input);
    }
}

/// Count the argument position of one destination slot.
fn rank_of(conns: &Vec<Connection>, id: NodeID, input: usize) -> (r: usize)
    ensures
        r == rank_count(conns@, id, input as int),
{
    proof {
        lemma_rank_count_bound(conns@, id, input as int);
    }
    let mut acc: usize = 0;
    let mut i: usize = 0;
    while i < conns.len()
        invariant
            i <= conns@.len(),
            acc <= i,
            acc == rank_count(conns@.subrange(0, i as int), id, input as int),
        decreases conns@.len() - i,
    {
        let c = conns[i];
        proof {
            assert(conns@.subrange(0, i + 1).drop_last() =~= conns@.subrange(0, i as int));
            assert(conns@.subrange(0, i + 1).last() == c);
        }
        if c.to == id && c.input < input {
            acc += 1;
        }
        i += 1;
    }
    proof {
        assert(conns@.subrange(0, conns@.len() as int) =~= conns@);
    }
    acc
}

/// The verdict one incoming edge receives after the node's transform
/// ran: on success every incoming edge is valid; on failure the edge is
/// judged against the best-scoring declared shape at the edge's argument
/// position, and an edge beyond the compared positions keeps its
/// verdict; with no declared shape at all every incoming edge is
/// invalid.
pub open spec fn mark_state(
    conns: Seq<Connection>,
    j: int,
    id: NodeID,
    ok: bool,
    groups: Seq<Seq<InfoModel>>,
    ks: Seq<TypeKey>,
) -> ConnectionState {
    let c = conns[j];
    if ok {
        ConnectionState::Valid
    } else if groups.len() == 0 {
        ConnectionState::Invalid
    } else {
        let best = groups[best_upto(groups, ks, groups.len() as int)];
        let p = rank_count(conns, id, c.input as int);
        if p < best.len() && p < ks.len() {
            if best[p].type_id == ks[p] {
                ConnectionState::Valid
            } else {
                ConnectionState::Invalid
            }
        } else {
            c.state
        }
    }
}

/// The edge list after one node's incoming edges were marked.
pub open spec fn mark(
    conns: Seq<Connection>,
    id: NodeID,
    ok: bool,
    groups: Seq<Seq<InfoModel>>,
    ks: Seq<TypeKey>,
) -> Seq<Connection> {
    Seq::new(
        conns.len(),
        |j: int|
            if conns[j].to == id {
                Connection {
                    from: conns[j].from,
                    to: conns[j].to,
                    input: conns[j].input,
                    state: mark_state(conns, j, id, ok, groups, ks),
                }
            } else {
                conns[j]
            },
    )
}

/// Mark the incoming edges of one node after its transform ran.
fn mark_exec(
    conns: &Vec<Connection>,
    id: NodeID,
    ok: bool,
    pi: &PossibleInputs,
    leftover: &Vec<DynValue>,
) -> (r: Vec<Connection>)
    ensures
        r@ == mark(conns@, id, ok, pi.models(), kinds_of(leftover@)),
{
    let ghost gs = pi.models();
    let ghost ks = kinds_of(leftover@);
    let best_opt = if ok {
        None
    } else {
        pi.best_match(leftover)
    };
    proof {
        if gs.len() > 0 {
            crate::reflect::lemma_best_upto_in_range(gs, ks, gs.len() as int);
        }
    }
    let mut r: Vec<Connection> = Vec::new();
    let mut i: usize = 0;
    while i < conns.len()
        invariant
            gs == pi.models(),
            ks == kinds_of(leftover@),
            ks.len() == leftover@.len(),
            gs.len() == pi.groups@.len(),
            ok ==> best_opt is None,
            !ok ==> (best_opt is None <==> gs.len() == 0),
            !ok && gs.len() > 0 ==> (best_opt matches Some(g) && g.models() == gs[best_upto(
                gs,
                ks,
                gs.len() as int,
            )]),
            i <= conns@.len(),
            r@.len() == i,
            forall|j: int| 0 <= j < i ==> r@[j] == mark(conns@, id, ok, gs, ks)[j],
        decreases conns@.len() - i,
    {
        let c = conns[i];
        if c.to == id {
            let st: ConnectionState = if ok {
                ConnectionState::Valid
            } else {
                match best_opt {
                    None => ConnectionState::Invalid,
                    Some(g) => {
                        let p = rank_of(conns, id, c.input);
                        if p < g.info.len() && p < leftover.len() {
                            let k = leftover[p].kind();
                            proof {
                                assert(g.models()[p as int] == g.info@[p as int].model());
                                assert(ks[p as int] == leftover@[p as int].kind_spec());
                            }
                            if g.info[p].type_id == k {
                                ConnectionState::Valid
                            } else {
                                ConnectionState::Invalid
                            }
                        } else {
                            c.state
                        }
                    },
                }
            };
            r.push(Connection { from: c.from, to: c.to, input: c.input, state: st });
        } else {
            r.push(c);
        }
        i += 1;
    }
    proof {
        assert(r@ =~= mark(conns@, id, ok, gs, ks));
    }
    r
}

/// The failure payload a result models: the failing node and the values
/// it had collected.
pub open spec fn res_model(r: Result<DynValue, Error>) -> Result<DynValue, (NodeID, Seq<DynValue>)> {
    match r {
        Ok(v) => Ok(v),
        Err(e) => Err((e.executing_node, e.inputs@)),
    }
}

pub open spec fn list_res_model(r: Result<Vec<DynValue>, Error>) -> Result<
    Seq<DynValue>,
    (NodeID, Seq<DynValue>),
> {
    match r {
        Ok(v) => Ok(v@),
        Err(e) => Err((e.executing_node, e.inputs@)),
    }
}

/// A marker naming the intermediate outcome a step of the evaluator
/// chose; it carries no fact and only guides instantiation.
pub open spec fn witness_of<A>(a: A) -> bool {
    true
}

/// How one recursive evaluation of a node relates the graph before it to
/// the graph after it and to its outcome: with fuel spent, the node
/// fails with no inputs; otherwise its incoming edges, ordered by slot,
/// deliver the source values, the node's transform runs on them, and its
/// incoming edges are marked against the transform's verdict.
pub open spec fn eval_node_rel(
    slots1: Seq<Option<NodeKind>>,
    c1: Seq<Connection>,
    id: NodeID,
    fuel: nat,
    res: Result<DynValue, (NodeID, Seq<DynValue>)>,
    slots2: Seq<Option<NodeKind>>,
    c2: Seq<Connection>,
) -> bool
    decreases fuel, 1nat, 0nat,
{
    if fuel == 0 {
        &&& res == Result::<DynValue, (NodeID, Seq<DynValue>)>::Err((id, Seq::empty()))
        &&& slots2 == slots1
        &&& c2 == c1
    } else {
        exists|
            lr: Result<Seq<DynValue>, (NodeID, Seq<DynValue>)>,
            smid: Seq<Option<NodeKind>>,
            cmid: Seq<Connection>,
        |
            #![trigger witness_of((lr, smid, cmid))]
            {
                &&& eval_list_rel(slots1, c1, sorted_incoming(c1, id), fuel, lr, smid, cmid)
                &&& match lr {
                    Result::Err(e) => res == Result::<DynValue, (NodeID, Seq<DynValue>)>::Err(e)
                        && slots2 == smid && c2 == cmid,
                    Result::Ok(vals) => exists|
                        r0: Result<DynValue, ()>,
                        leftover: Seq<DynValue>,
                        next: NodeKind,
                    |
                        #![trigger witness_of((r0, leftover, next))]
                        {
                            &&& live(smid, id)
                            &&& node_of(smid, id).op_rel(vals, r0, leftover, next)
                            &&& slots2 == smid.update(id.idx as int, Some(next))
                            &&& c2 == mark(cmid, id, r0 is Ok, next.inputs_spec(), kinds_of(
                                leftover,
                            ))
                            &&& res == (match r0 {
                                Result::Ok(v) => Result::<DynValue, (NodeID, Seq<DynValue>)>::Ok(v),
                                Result::Err(()) => Result::<DynValue, (NodeID, Seq<DynValue>)>::Err(
                                    (id, leftover),
                                ),
                            })
                        },
                }
            }
    }
}

/// How evaluating the sources of one ordered incoming-edge list relates
/// the graph before to the graph after: each source in turn, a
/// terminator invoked directly on an empty run, any other source
/// evaluated recursively with one unit of fuel spent, the first failure
/// propagated as the outcome.
pub open spec fn eval_list_rel(
    slots1: Seq<Option<NodeKind>>,
    c1: Seq<Connection>,
    inc: Seq<Connection>,
    fuel: nat,
    lr: Result<Seq<DynValue>, (NodeID, Seq<DynValue>)>,
    slots2: Seq<Option<NodeKind>>,
    c2: Seq<Connection>,
) -> bool
    decreases fuel, 0nat, inc.len(),
{
    if inc.len() == 0 {
        &&& lr == Result::<Seq<DynValue>, (NodeID, Seq<DynValue>)>::Ok(Seq::empty())
        &&& slots2 == slots1
        &&& c2 == c1
    } else {
        &&& live(slots1, inc[0].from)
        &&& if node_of(slots1, inc[0].from).is_terminator_spec() {
            exists|r0: Result<DynValue, ()>, leftover: Seq<DynValue>, next: NodeKind|
                #![trigger witness_of((r0, leftover, next))]
                {
                    &&& node_of(slots1, inc[0].from).op_rel(Seq::empty(), r0, leftover, next)
                    &&& match r0 {
                        Result::Err(()) => lr == Result::<
                            Seq<DynValue>,
                            (NodeID, Seq<DynValue>),
                        >::Err((inc[0].from, leftover)) && slots2 == slots1.update(
                            inc[0].from.idx as int,
                            Some(next),
                        ) && c2 == c1,
                        Result::Ok(v) => exists|
                            rest: Result<Seq<DynValue>, (NodeID, Seq<DynValue>)>,
                        |
                            #![trigger witness_of(rest)]
                            {
                                &&& eval_list_rel(
                                    slots1.update(inc[0].from.idx as int, Some(next)),
                                    c1,
                                    inc.drop_first(),
                                    fuel,
                                    rest,
                                    slots2,
                                    c2,
                                )
                                &&& match rest {
                                    Result::Ok(vs) => lr == Result::<
                                        Seq<DynValue>,
                                        (NodeID, Seq<DynValue>),
                                    >::Ok(seq![v] + vs),
                                    Result::Err(e) => lr == Result::<
                                        Seq<DynValue>,
                                        (NodeID, Seq<DynValue>),
                                    >::Err(e),
                                }
                            },
                    }
                }
        } else {
            &&& fuel > 0
            &&& exists|
                r1: Result<DynValue, (NodeID, Seq<DynValue>)>,
                smid: Seq<Option<NodeKind>>,
                cmid: Seq<Connection>,
            |
                #![trigger witness_of((r1, smid, cmid))]
                {
                    &&& eval_node_rel(slots1, c1, inc[0].from, (fuel - 1) as nat, r1, smid, cmid)
                    &&& match r1 {
                        Result::Err(e) => lr == Result::<
                            Seq<DynValue>,
                            (NodeID, Seq<DynValue>),
                        >::Err(e) && slots2 == smid && c2 == cmid,
                        Result::Ok(v) => exists|
                            rest: Result<Seq<DynValue>, (NodeID, Seq<DynValue>)>,
                        |
                            #![trigger witness_of(rest)]
                            {
                                &&& eval_list_rel(smid, cmid, inc.drop_first(), fuel, rest, slots2, c2)
                                &&& match rest {
                                    Result::Ok(vs) => lr == Result::<
                                        Seq<DynValue>,
                                        (NodeID, Seq<DynValue>),
                                    >::Ok(seq![v] + vs),
                                    Result::Err(e) => lr == Result::<
                                        Seq<DynValue>,
                                        (NodeID, Seq<DynValue>),
                                    >::Err(e),
                                }
                            },
                    }
                }
        }
    }
}

/// Introduction: a failing source list fails the node evaluation.
proof fn lemma_eval_node_err(
    slots1: Seq<Option<NodeKind>>,
    c1: Seq<Connection>,
    id: NodeID,
    fuel: nat,
    e: (NodeID, Seq<DynValue>),
    smid: Seq<Option<NodeKind>>,
    cmid: Seq<Connection>,
)
    requires
        fuel > 0,
        eval_list_rel(
            slots1,
            c1,
            sorted_incoming(c1, id),
            fuel,
            Result::<Seq<DynValue>, (NodeID, Seq<DynValue>)>::Err(e),
            smid,
            cmid,
        ),
    ensures
        eval_node_rel(
            slots1,
            c1,
            id,
            fuel,
            Result::<DynValue, (NodeID, Seq<DynValue>)>::Err(e),
            smid,
            cmid,
        ),
{
    assert(witness_of((Result::<Seq<DynValue>, (NodeID, Seq<DynValue>)>::Err(e), smid, cmid)));
}

/// Introduction: collected source values, one transform run, and the
/// marking of the incoming edges make one node evaluation.
proof fn lemma_eval_node_ok(
    slots1: Seq<Option<NodeKind>>,
    c1: Seq<Connection>,
    id: NodeID,
    fuel: nat,
    vals: Seq<DynValue>,
    smid: Seq<Option<NodeKind>>,
    cmid: Seq<Connection>,
    r0: Result<DynValue, ()>,
    leftover: Seq<DynValue>,
    next: NodeKind,
    res: Result<DynValue, (NodeID, Seq<DynValue>)>,
    slots2: Seq<Option<NodeKind>>,
    c2: Seq<Connection>,
)
    requires
        fuel > 0,
        eval_list_rel(
            slots1,
            c1,
            sorted_incoming(c1, id),
            fuel,
            Result::<Seq<DynValue>, (NodeID, Seq<DynValue>)>::Ok(vals),
            smid,
            cmid,
        ),
        live(smid, id),
        node_of(smid, id).op_rel(vals, r0, leftover, next),
        slots2 == smid.update(id.idx as int, Some(next)),
        c2 == mark(cmid, id, r0 is Ok, next.inputs_spec(), kinds_of(leftover)),
        res == (match r0 {
            Result::<DynValue, ()>::Ok(v) => Result::<DynValue, (NodeID, Seq<DynValue>)>::Ok(v),
            Result::<DynValue, ()>::Err(()) => Result::<DynValue, (NodeID, Seq<DynValue>)>::Err(
                (id, leftover),
            ),
        }),
    ensures
        eval_node_rel(slots1, c1, id, fuel, res, slots2, c2),
{
    assert(witness_of((Result::<Seq<DynValue>, (NodeID, Seq<DynValue>)>::Ok(vals), smid, cmid)));
    assert(witness_of((r0, leftover, next)));
}

/// Introduction: a failing terminator source fails the list.
proof fn lemma_eval_list_term_err(
    slots1: Seq<Option<NodeKind>>,
    c1: Seq<Connection>,
    inc: Seq<Connection>,
    fuel: nat,
    leftover: Seq<DynValue>,
    next: NodeKind,
)
    requires
        inc.len() > 0,
        live(slots1, inc[0].from),
        node_of(slots1, inc[0].from).is_terminator_spec(),
        node_of(slots1, inc[0].from).op_rel(
            Seq::<DynValue>::empty(),
            Result::<DynValue, ()>::Err(()),
            leftover,
            next,
        ),
    ensures
        eval_list_rel(
            slots1,
            c1,
            inc,
            fuel,
            Result::<Seq<DynValue>, (NodeID, Seq<DynValue>)>::Err((inc[0].from, leftover)),
            slots1.update(inc[0].from.idx as int, Some(next)),
            c1,
        ),
{
    assert(witness_of((Result::<DynValue, ()>::Err(()), leftover, next)));
}

/// Introduction: a terminator source's value followed by the rest of the
/// list.
proof fn lemma_eval_list_term_step(
    slots1: Seq<Option<NodeKind>>,
    c1: Seq<Connection>,
    inc: Seq<Connection>,
    fuel: nat,
    v: DynValue,
    leftover: Seq<DynValue>,
    next: NodeKind,
    rest: Result<Seq<DynValue>, (NodeID, Seq<DynValue>)>,
    lr: Result<Seq<DynValue>, (NodeID, Seq<DynValue>)>,
    slots2: Seq<Option<NodeKind>>,
    c2: Seq<Connection>,
)
    requires
        inc.len() > 0,
        live(slots1, inc[0].from),
        node_of(slots1, inc[0].from).is_terminator_spec(),
        node_of(slots1, inc[0].from).op_rel(
            Seq::<DynValue>::empty(),
            Result::<DynValue, ()>::Ok(v),
            leftover,
            next,
        ),
        eval_list_rel(
            slots1.update(inc[0].from.idx as int, Some(next)),
            c1,
            inc.drop_first(),
            fuel,
            rest,
            slots2,
            c2,
        ),
        lr == (match rest {
            Result::<Seq<DynValue>, (NodeID, Seq<DynValue>)>::Ok(vs) => Result::<
                Seq<DynValue>,
                (NodeID, Seq<DynValue>),
            >::Ok(seq![v] + vs),
            Result::<Seq<DynValue>, (NodeID, Seq<DynValue>)>::Err(e) => Result::<
                Seq<DynValue>,
                (NodeID, Seq<DynValue>),
            >::Err(e),
        }),
    ensures
        eval_list_rel(slots1, c1, inc, fuel, lr, slots2, c2),
{
    assert(witness_of((Result::<DynValue, ()>::Ok(v), leftover, next)));
    assert(witness_of(rest));
}

/// Introduction: a failing recursive source fails the list.
proof fn lemma_eval_list_rec_err(
    slots1: Seq<Option<NodeKind>>,
    c1: Seq<Connection>,
    inc: Seq<Connection>,
    fuel: nat,
    e: (NodeID, Seq<DynValue>),
    smid: Seq<Option<NodeKind>>,
    cmid: Seq<Connection>,
)
    requires
        inc.len() > 0,
        fuel > 0,
        live(slots1, inc[0].from),
        !node_of(slots1, inc[0].from).is_terminator_spec(),
        eval_node_rel(
            slots1,
            c1,
            inc[0].from,
            (fuel - 1) as nat,
            Result::<DynValue, (NodeID, Seq<DynValue>)>::Err(e),
            smid,
            cmid,
        ),
    ensures
        eval_list_rel(
            slots1,
            c1,
            inc,
            fuel,
            Result::<Seq<DynValue>, (NodeID, Seq<DynValue>)>::Err(e),
            smid,
            cmid,
        ),
{
    assert(witness_of((Result::<DynValue, (NodeID, Seq<DynValue>)>::Err(e), smid, cmid)));
}

/// Introduction: a recursively evaluated source's value followed by the
/// rest of the list.
proof fn lemma_eval_list_rec_step(
    slots1: Seq<Option<NodeKind>>,
    c1: Seq<Connection>,
    inc: Seq<Connection>,
    fuel: nat,
    v: DynValue,
    smid: Seq<Option<NodeKind>>,
    cmid: Seq<Connection>,
    rest: Result<Seq<DynValue>, (NodeID, Seq<DynValue>)>,
    lr: Result<Seq<DynValue>, (NodeID, Seq<DynValue>)>,
    slots2: Seq<Option<NodeKind>>,
    c2: Seq<Connection>,
)
    requires
        inc.len() > 0,
        fuel > 0,
        live(slots1, inc[0].from),
        !node_of(slots1, inc[0].from).is_terminator_spec(),
        eval_node_rel(
            slots1,
            c1,
            inc[0].from,
            (fuel - 1) as nat,
            Result::<DynValue, (NodeID, Seq<DynValue>)>::Ok(v),
            smid,
            cmid,
        ),
        eval_list_rel(smid, cmid, inc.drop_first(), fuel, rest, slots2, c2),
        lr == (match rest {
            Result::<Seq<DynValue>, (NodeID, Seq<DynValue>)>::Ok(vs) => Result::<
                Seq<DynValue>,
                (NodeID, Seq<DynValue>),
            >::Ok(seq![v] + vs),
            Result::<Seq<DynValue>, (NodeID, Seq<DynValue>)>::Err(e) => Result::<
                Seq<DynValue>,
                (NodeID, Seq<DynValue>),
            >::Err(e),
        }),
    ensures
        eval_list_rel(slots1, c1, inc, fuel, lr, slots2, c2),
{
    assert(witness_of((Result::<DynValue, (NodeID, Seq<DynValue>)>::Ok(v), smid, cmid)));
    assert(witness_of(rest));
}

/// Every verdict reset to unevaluated, endpoints untouched.
pub open spec fn reset_states(conns: Seq<Connection>) -> Seq<Connection> {
    Seq::new(
        conns.len(),
        |j: int|
            Connection {
                from: conns[j].from,
                to: conns[j].to,
                input: conns[j].input,
                state: ConnectionState::Unevaluated,
            },
    )
}

/// The fuel one execution starts with: enough for any path through the
/// arena, one recursion level per slot.
pub open spec fn exec_fuel(n: int) -> int {
    if n + 1 <= usize::MAX {
        n + 1
    } else {
        n
    }
}

proof fn lemma_shape_trans(
    s1: Seq<Option<NodeKind>>,
    s2: Seq<Option<NodeKind>>,
    s3: Seq<Option<NodeKind>>,
)
    requires
        same_shape(s1, s2),
        same_shape(s2, s3),
    ensures
        same_shape(s1, s3),
{
    assert forall|i: int| 0 <= i < s1.len() implies ((#[trigger] s3[i]) is Some <==> s1[i]
        is Some) by {
        assert((s2[i] is Some) <==> (s1[i] is Some));
        assert((s3[i] is Some) <==> (s2[i] is Some));
    }
}

proof fn lemma_edges_trans(c1: Seq<Connection>, c2: Seq<Connection>, c3: Seq<Connection>)
    requires
        same_edges(c1, c2),
        same_edges(c2, c3),
    ensures
        same_edges(c1, c3),
{
    assert forall|j: int|
        #![trigger c3[j]]
        0 <= j < c1.len() implies c3[j].from == c1[j].from && c3[j].to == c1[j].to && c3[j].input
        == c1[j].input by {
        let x2 = c2[j];
        assert(x2.from == c1[j].from && x2.to == c1[j].to && x2.input == c1[j].input);
        assert(c3[j].from == x2.from && c3[j].to == x2.to && c3[j].input == x2.input);
    }
}

/// Well-formedness carries over to any graph with the same slot shape
/// and the same edge endpoints.
proof fn lemma_preserve_wf(a1: NodeArena, c1: Seq<Connection>, root: NodeID, a2: NodeArena, c2: Seq<
    Connection,
>)
    requires
        a1.contains_spec(root),
        endpoints_ok(a1, c1),
        slots_unique(c1),
        same_shape(a1.slots@, a2.slots@),
        same_edges(c1, c2),
    ensures
        a2.contains_spec(root),
        endpoints_ok(a2, c2),
        slots_unique(c2),
{
    assert forall|j: int|
        0 <= j < c2.len() implies a2.contains_spec(#[trigger] c2[j].from) && a2.contains_spec(
        c2[j].to,
    ) by {
        assert(a1.contains_spec(c1[j].from) && a1.contains_spec(c1[j].to));
        assert(c2[j].from == c1[j].from && c2[j].to == c1[j].to);
    }
    assert forall|j1: int, j2: int|
        #![trigger c2[j1], c2[j2]]
        0 <= j1 < j2 < c2.len() implies !(c2[j1].to == c2[j2].to && c2[j1].input
        == c2[j2].input) by {
        assert(c1[j1].to == c2[j1].to && c1[j1].input == c2[j1].input);
        assert(c1[j2].to == c2[j2].to && c1[j2].input == c2[j2].input);
    }
}

/// Reset every verdict to unevaluated.
fn reset_exec(conns: &Vec<Connection>) -> (r: Vec<Connection>)
    ensures
        r@ == reset_states(conns@),
{
    let mut r: Vec<Connection> = Vec::new();
    let mut i: usize = 0;
    while i < conns.len()
        invariant
            i <= conns@.len(),
            r@.len() == i,
            forall|j: int| 0 <= j < i ==> r@[j] == reset_states(conns@)[j],
        decreases conns@.len() - i,
    {
        let c = conns[i];
        r.push(
            Connection { from: c.from, to: c.to, input: c.input, state: ConnectionState::Unevaluated },
        );
        i += 1;
    }
    proof {
        assert(r@ =~= reset_states(conns@));
    }
    r
}


impl Graph {
    /// Evaluate one node recursively: its incoming edges, ordered by
    /// slot, deliver the source values, the transform runs on them, and
    /// the incoming edges are marked with the verdict; spent fuel fails
    /// the node, which bounds recursion through a cyclic edge set.
    fn execute_node(&mut self, id: NodeID, fuel: usize) -> (r: Result<DynValue, Error>)
        requires
            old(self).wf(),
            old(self).nodes.contains_spec(id),
        ensures
            final(self).wf(),
            final(self).root == old(self).root,
            same_shape(old(self).nodes.slots@, final(self).nodes.slots@),
            same_edges(old(self).connections@, final(self).connections@),
            eval_node_rel(
                old(self).nodes.slots@,
                old(self).connections@,
                id,
                fuel as nat,
                res_model(r),
                final(self).nodes.slots@,
                final(self).connections@,
            ),
        decreases fuel, 1int, 0int,
    {
        let ghost slots1 = self.nodes.slots@;
        let ghost c1 = self.connections@;
        if fuel == 0 {
            let e = Error { executing_node: id, inputs: Vec::new() };
            proof {
                assert(e.inputs@ =~= Seq::<DynValue>::empty());
            }
            return Err(e);
        }
        let inc = sorted_incoming_exec(&self.connections, id);
        proof {
            lemma_sorted_sources(self.nodes, self.connections@, id);
            assert(inc@.skip(0) =~= inc@);
        }
        let list_r = self.execute_list(&inc, 0, fuel);
        let ghost amid_arena = self.nodes;
        let ghost smid = self.nodes.slots@;
        let ghost cmid = self.connections@;
        let ghost glr = list_res_model(list_r);
        proof {
            assert(eval_list_rel(slots1, c1, sorted_incoming(c1, id), fuel as nat, glr, smid, cmid));
        }
        let mut vals = match list_r {
            Ok(v) => v,
            Err(e) => {
                proof {
                    assert(glr == Result::<Seq<DynValue>, (NodeID, Seq<DynValue>)>::Err(
                        (e.executing_node, e.inputs@),
                    ));
                    lemma_eval_node_err(
                        slots1,
                        c1,
                        id,
                        fuel as nat,
                        (e.executing_node, e.inputs@),
                        smid,
                        cmid,
                    );
                }
                return Err(e);
            },
        };
        let ghost gvals = vals@;
        proof {
            assert(glr == Result::<Seq<DynValue>, (NodeID, Seq<DynValue>)>::Ok(gvals));
            assert(live(smid, id));
        }
        let taken = self.nodes.take(id);
        let mut node = match taken {
            Some(n) => n,
            None => {
                proof {
                    assert(false);
                }
                return Err(Error { executing_node: id, inputs: Vec::new() });
            },
        };
        let ghost gnode = node;
        let r0 = node.op(&mut vals);
        let ghost gr0 = match r0 {
            Ok(ref v) => Result::<DynValue, ()>::Ok(*v),
            Err(()) => Result::<DynValue, ()>::Err(()),
        };
        let ghost gleft = vals@;
        let ghost gnext = node;
        let pi = node.inputs();
        let ok = r0.is_ok();
        let marked = mark_exec(&self.connections, id, ok, &pi, &vals);
        self.nodes.put(id, node);
        self.connections = marked;
        proof {
            assert(self.nodes.slots@ =~= smid.update(id.idx as int, Some(gnext)));
            assert(same_shape(smid, self.nodes.slots@));
            lemma_shape_trans(slots1, smid, self.nodes.slots@);
            assert(same_edges(cmid, self.connections@));
            lemma_edges_trans(c1, cmid, self.connections@);
            lemma_preserve_wf(amid_arena, cmid, old(self).root, self.nodes, self.connections@);
        }
        let res = match r0 {
            Ok(v) => Ok(v),
            Err(()) => Err(Error { executing_node: id, inputs: vals }),
        };
        proof {
            assert(gnode == node_of(smid, id));
            assert(gnode.op_rel(gvals, gr0, gleft, gnext));
            assert(self.connections@ == mark(cmid, id, gr0 is Ok, gnext.inputs_spec(), kinds_of(
                gleft,
            )));
            assert(res_model(res) == (match gr0 {
                Result::<DynValue, ()>::Ok(v) => Result::<DynValue, (NodeID, Seq<DynValue>)>::Ok(v),
                Result::<DynValue, ()>::Err(()) => Result::<DynValue, (NodeID, Seq<DynValue>)>::Err(
                    (id, gleft),
                ),
            }));
            lemma_eval_node_ok(
                slots1,
                c1,
                id,
                fuel as nat,
                gvals,
                smid,
                cmid,
                gr0,
                gleft,
                gnext,
                res_model(res),
                self.nodes.slots@,
                self.connections@,
            );
        }
        res
    }

    /// Evaluate the sources of the ordered incoming edges from position
    /// `pos` on, in order; see `eval_list_rel`.
    fn execute_list(&mut self, inc: &Vec<Connection>, pos: usize, fuel: usize) -> (r: Result<
        Vec<DynValue>,
        Error,
    >)
        requires
            old(self).wf(),
            fuel >= 1,
            pos <= inc@.len(),
            forall|j: int|
                pos <= j < inc@.len() ==> old(self).nodes.contains_spec(#[trigger] inc@[j].from),
        ensures
            final(self).wf(),
            final(self).root == old(self).root,
            same_shape(old(self).nodes.slots@, final(self).nodes.slots@),
            same_edges(old(self).connections@, final(self).connections@),
            eval_list_rel(
                old(self).nodes.slots@,
                old(self).connections@,
                inc@.skip(pos as int),
                fuel as nat,
                list_res_model(r),
                final(self).nodes.slots@,
                final(self).connections@,
            ),
        decreases fuel, 0int, inc@.len() - pos,
    {
        let ghost slots1 = self.nodes.slots@;
        let ghost c1 = self.connections@;
        if pos >= inc.len() {
            let out: Vec<DynValue> = Vec::new();
            proof {
                assert(inc@.skip(pos as int) =~= Seq::<Connection>::empty());
                assert(out@ =~= Seq::<DynValue>::empty());
            }
            return Ok(out);
        }
        let ghost ginc = inc@.skip(pos as int);
        let c = inc[pos];
        proof {
            assert(ginc[0] == c);
            assert(ginc.drop_first() =~= inc@.skip(pos + 1));
            assert(live(slots1, c.from));
        }
        let from = c.from;
        let is_term = match self.nodes.get(from) {
            Some(n) => n.is_terminator(),
            None => {
                proof {
                    assert(false);
                }
                false
            },
        };
        if is_term {
            let taken = self.nodes.take(from);
            let mut node = match taken {
                Some(n) => n,
                None => {
                    proof {
                        assert(false);
                    }
                    return Err(Error { executing_node: from, inputs: Vec::new() });
                },
            };
            let ghost gnode = node;
            let mut term_inputs: Vec<DynValue> = Vec::new();
            let r0 = node.op(&mut term_inputs);
            let ghost gr0 = match r0 {
                Ok(ref v) => Result::<DynValue, ()>::Ok(*v),
                Err(()) => Result::<DynValue, ()>::Err(()),
            };
            let ghost gleft = term_inputs@;
            let ghost gnext = node;
            self.nodes.put(from, node);
            proof {
                assert(self.nodes.slots@ =~= slots1.update(from.idx as int, Some(gnext)));
                assert(same_shape(slots1, self.nodes.slots@));
                assert(gnode == node_of(slots1, from));
                assert(gnode.is_terminator_spec());
                assert(gnode.op_rel(Seq::<DynValue>::empty(), gr0, gleft, gnext));
                assert forall|j: int|
                    pos + 1 <= j < inc@.len() implies self.nodes.contains_spec(
                    #[trigger] inc@[j].from,
                ) by {
                    assert(old(self).nodes.contains_spec(inc@[j].from));
                }
                lemma_preserve_wf(
                    old(self).nodes,
                    c1,
                    old(self).root,
                    self.nodes,
                    self.connections@,
                );
            }
            match r0 {
                Ok(v) => {
                    let ghost gv = v;
                    let ghost spre = self.nodes.slots@;
                    match self.execute_list(inc, pos + 1, fuel) {
                        Ok(mut vs) => {
                            let ghost grest = vs@;
                            vs.insert(0, v);
                            proof {
                                assert(vs@ =~= seq![gv] + grest);
                                lemma_shape_trans(slots1, spre, self.nodes.slots@);
                                lemma_eval_list_term_step(
                                    slots1,
                                    c1,
                                    ginc,
                                    fuel as nat,
                                    gv,
                                    gleft,
                                    gnext,
                                    Result::<Seq<DynValue>, (NodeID, Seq<DynValue>)>::Ok(grest),
                                    Result::<Seq<DynValue>, (NodeID, Seq<DynValue>)>::Ok(vs@),
                                    self.nodes.slots@,
                                    self.connections@,
                                );
                            }
                            Ok(vs)
                        },
                        Err(e) => {
                            proof {
                                lemma_shape_trans(slots1, spre, self.nodes.slots@);
                                lemma_eval_list_term_step(
                                    slots1,
                                    c1,
                                    ginc,
                                    fuel as nat,
                                    gv,
                                    gleft,
                                    gnext,
                                    Result::<Seq<DynValue>, (NodeID, Seq<DynValue>)>::Err(
                                        (e.executing_node, e.inputs@),
                                    ),
                                    Result::<Seq<DynValue>, (NodeID, Seq<DynValue>)>::Err(
                                        (e.executing_node, e.inputs@),
                                    ),
                                    self.nodes.slots@,
                                    self.connections@,
                                );
                            }
                            Err(e)
                        },
                    }
                },
                Err(()) => {
                    let e = Error { executing_node: from, inputs: term_inputs };
                    proof {
                        assert(e.inputs@ == gleft);
                        lemma_eval_list_term_err(slots1, c1, ginc, fuel as nat, gleft, gnext);
                    }
                    Err(e)
                },
            }
        } else {
            let node_r = self.execute_node(from, fuel - 1);
            let ghost smid = self.nodes.slots@;
            let ghost cmid = self.connections@;
            match node_r {
                Ok(v) => {
                    let ghost gv = v;
                    proof {
                        assert forall|j: int|
                            pos + 1 <= j < inc@.len() implies self.nodes.contains_spec(
                            #[trigger] inc@[j].from,
                        ) by {
                            assert(old(self).nodes.contains_spec(inc@[j].from));
                        }
                    }
                    match self.execute_list(inc, pos + 1, fuel) {
                        Ok(mut vs) => {
                            let ghost grest = vs@;
                            vs.insert(0, v);
                            proof {
                                assert(vs@ =~= seq![gv] + grest);
                                lemma_shape_trans(slots1, smid, self.nodes.slots@);
                                lemma_edges_trans(c1, cmid, self.connections@);
                                lemma_eval_list_rec_step(
                                    slots1,
                                    c1,
                                    ginc,
                                    fuel as nat,
                                    gv,
                                    smid,
                                    cmid,
                                    Result::<Seq<DynValue>, (NodeID, Seq<DynValue>)>::Ok(grest),
                                    Result::<Seq<DynValue>, (NodeID, Seq<DynValue>)>::Ok(vs@),
                                    self.nodes.slots@,
                                    self.connections@,
                                );
                            }
                            Ok(vs)
                        },
                        Err(e) => {
                            proof {
                                lemma_shape_trans(slots1, smid, self.nodes.slots@);
                                lemma_edges_trans(c1, cmid, self.connections@);
                                lemma_eval_list_rec_step(
                                    slots1,
                                    c1,
                                    ginc,
                                    fuel as nat,
                                    gv,
                                    smid,
                                    cmid,
                                    Result::<Seq<DynValue>, (NodeID, Seq<DynValue>)>::Err(
                                        (e.executing_node, e.inputs@),
                                    ),
                                    Result::<Seq<DynValue>, (NodeID, Seq<DynValue>)>::Err(
                                        (e.executing_node, e.inputs@),
                                    ),
                                    self.nodes.slots@,
                                    self.connections@,
                                );
                            }
                            Err(e)
                        },
                    }
                },
                Err(e) => {
                    proof {
                        lemma_eval_list_rec_err(
                            slots1,
                            c1,
                            ginc,
                            fuel as nat,
                            (e.executing_node, e.inputs@),
                            smid,
                            cmid,
                        );
                    }
                    Err(e)
                },
            }
        }
    }

    /// Run the graph: reset every verdict to unevaluated, then evaluate
    /// the designated root recursively; on failure the error names the
    /// failing node and carries the inputs it had collected, and each
    /// edge's verdict tells a diagnostic consumer which positions agreed
    /// with the closest declared shape.
    pub fn execute(&mut self) -> (r: Result<DynValue, Error>)
        requires
            old(self).wf(),
        ensures
            final(self).wf(),
            final(self).root == old(self).root,
            same_shape(old(self).nodes.slots@, final(self).nodes.slots@),
            same_edges(old(self).connections@, final(self).connections@),
            eval_node_rel(
                old(self).nodes.slots@,
                reset_states(old(self).connections@),
                old(self).root,
                exec_fuel(old(self).nodes.slots@.len() as int) as nat,
                res_model(r),
                final(self).nodes.slots@,
                final(self).connections@,
            ),
    {
        let ghost c0 = self.connections@;
        let resetv = reset_exec(&self.connections);
        self.connections = resetv;
        proof {
            assert(same_edges(c0, self.connections@));
            lemma_preserve_wf(self.nodes, c0, self.root, self.nodes, self.connections@);
        }
        let n = self.nodes.len();
        let fuel = if n < usize::MAX {
            n + 1
        } else {
            n
        };
        proof {
            assert(fuel as int == exec_fuel(old(self).nodes.slots@.len() as int));
        }
        let rt = self.root;
        let r = self.execute_node(rt, fuel);
        proof {
            lemma_edges_trans(c0, reset_states(c0), self.connections@);
        }
        r
    }
}

} // verus!
