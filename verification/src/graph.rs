//! The mutable operation graph.  Storage is petgraph's `StableGraph`
//! (node indices stay valid across mutation), held behind a small trusted
//! layer: two names for its contents — the node map and the edge map —
//! and one wrapper per method the rewrite pass calls.  Everything above
//! that layer is verified.

use vstd::prelude::*;
use petgraph::stable_graph::StableGraph;
use petgraph::visit::EdgeRef;
use crate::ops::Op;
use crate::shape::TensorView;

verus! {

#[verifier::external_type_specification]
#[verifier::external_body]
#[verifier::reject_recursive_types(N)]
#[verifier::reject_recursive_types(E)]
#[verifier::reject_recursive_types(Ty)]
#[verifier::reject_recursive_types(Ix)]
pub struct ExStableGraph<N, E, Ty, Ix>(StableGraph<N, E, Ty, Ix>);

#[verifier::external_type_specification]
#[verifier::external_body]
pub struct ExDirected(petgraph::Directed);

/// What a graph node stores: its operator and the view of the value it
/// produces.
#[derive(Debug)]
pub struct NodeData {
    pub op: Op,
    pub view: TensorView,
}

/// One directed edge: producer, consumer, and the opaque weight that
/// records source-output selection.
pub struct EdgeData {
    pub src: usize,
    pub dst: usize,
    pub weight: u8,
}

/// The nodes the store holds: occupied index to stored weight.
pub uninterp spec fn sg_nodes(g: StableGraph<NodeData, u8, petgraph::Directed, usize>) -> Map<
    usize,
    NodeData,
>;

/// The edges the store holds: occupied edge index to endpoints and weight.
pub uninterp spec fn sg_edges(g: StableGraph<NodeData, u8, petgraph::Directed, usize>) -> Map<
    usize,
    EdgeData,
>;

/// Relies on `StableGraph::with_capacity`: an empty graph.
#[verifier::external_body]
fn sg_new() -> (r: StableGraph<NodeData, u8, petgraph::Directed, usize>)
    ensures
        sg_nodes(r).dom() == Set::<usize>::empty(),
        sg_edges(r).dom() == Set::<usize>::empty(),
{
    StableGraph::with_capacity(0, 0)
}

/// Relies on `StableGraph::add_node`: stores the weight at a vacant index
/// and returns that index.  With `usize` indices the index space cannot be
/// exhausted.
#[verifier::external_body]
fn sg_add_node(g: &mut StableGraph<NodeData, u8, petgraph::Directed, usize>, w: NodeData) -> (id:
    usize)
    ensures
        !sg_nodes(*old(g)).dom().contains(id),
        sg_nodes(*final(g)) == sg_nodes(*old(g)).insert(id, w),
        sg_edges(*final(g)) == sg_edges(*old(g)),
{
    g.add_node(w).index()
}

/// Relies on `StableGraph::node_weight`: the weight stored at an occupied
/// index, `None` on a vacant or out-of-range one.
#[verifier::external_body]
fn sg_node_weight<'a>(g: &'a StableGraph<NodeData, u8, petgraph::Directed, usize>, id: usize) -> (r:
    Option<&'a NodeData>)
    ensures
        match r {
            Some(w) => sg_nodes(*g).dom().contains(id) && *w == sg_nodes(*g)[id],
            None => !sg_nodes(*g).dom().contains(id),
        },
{
    g.node_weight(petgraph::stable_graph::NodeIndex::new(id))
}

/// Relies on `StableGraph::node_weight_mut`: overwrites the weight at an
/// occupied index; a vacant index is left alone.
#[verifier::external_body]
fn sg_set_node_weight(
    g: &mut StableGraph<NodeData, u8, petgraph::Directed, usize>,
    id: usize,
    w: NodeData,
) -> (ok: bool)
    ensures
        ok == sg_nodes(*old(g)).dom().contains(id),
        sg_nodes(*final(g)) == if sg_nodes(*old(g)).dom().contains(id) {
            sg_nodes(*old(g)).insert(id, w)
        } else {
            sg_nodes(*old(g))
        },
        sg_edges(*final(g)) == sg_edges(*old(g)),
{
    match g.node_weight_mut(petgraph::stable_graph::NodeIndex::new(id)) {
        Some(slot) => {
            *slot = w;
            true
        },
        None => false,
    }
}

/// Relies on `StableGraph::add_edge`: records a (parallel-capable) edge
/// at a vacant edge index and returns that index.  Panics when an
/// endpoint is missing, so presence is required.
#[verifier::external_body]
fn sg_add_edge(
    g: &mut StableGraph<NodeData, u8, petgraph::Directed, usize>,
    src: usize,
    dst: usize,
    w: u8,
) -> (eid: usize)
    requires
        sg_nodes(*old(g)).dom().contains(src),
        sg_nodes(*old(g)).dom().contains(dst),
    ensures
        !sg_edges(*old(g)).dom().contains(eid),
        sg_edges(*final(g)) == sg_edges(*old(g)).insert(eid, EdgeData { src, dst, weight: w }),
        sg_nodes(*final(g)) == sg_nodes(*old(g)),
{
    g.add_edge(
        petgraph::stable_graph::NodeIndex::new(src),
        petgraph::stable_graph::NodeIndex::new(dst),
        w,
    ).index()
}

/// Relies on `StableGraph::remove_edge`: removes the edge stored at the
/// index and returns its weight; a vacant index is left alone.
#[verifier::external_body]
fn sg_remove_edge(g: &mut StableGraph<NodeData, u8, petgraph::Directed, usize>, eid: usize) -> (r:
    Option<u8>)
    ensures
        sg_nodes(*final(g)) == sg_nodes(*old(g)),
        match r {
            Some(w) => sg_edges(*old(g)).dom().contains(eid) && w == sg_edges(*old(g))[eid].weight
                && sg_edges(*final(g)) == sg_edges(*old(g)).remove(eid),
            None => !sg_edges(*old(g)).dom().contains(eid) && sg_edges(*final(g)) == sg_edges(*old(g)),
        },
{
    g.remove_edge(petgraph::stable_graph::EdgeIndex::new(eid))
}

/// Relies on `StableGraph::node_indices`: every occupied node index,
/// each exactly once.
#[verifier::external_body]
fn sg_node_indices(g: &StableGraph<NodeData, u8, petgraph::Directed, usize>) -> (r: Vec<usize>)
    ensures
        forall|i: int, j: int| 0 <= i < j < r@.len() ==> r@[i] != r@[j],
        forall|i: int| 0 <= i < r@.len() ==> sg_nodes(*g).dom().contains(#[trigger] r@[i]),
        forall|id: usize| #[trigger] sg_nodes(*g).dom().contains(id) ==> r@.contains(id),
{
    g.node_indices().map(|n| n.index()).collect()
}

/// Relies on `StableGraph::edges_directed` with `Direction::Outgoing`:
/// every edge whose source is `id`, each exactly once, as
/// `(edge index, target, weight)`.
#[verifier::external_body]
fn sg_outgoing(g: &StableGraph<NodeData, u8, petgraph::Directed, usize>, id: usize) -> (r: Vec<
    (usize, usize, u8),
>)
    ensures
        forall|i: int, j: int| 0 <= i < j < r@.len() ==> r@[i].0 != r@[j].0,
        forall|i: int|
            0 <= i < r@.len() ==> sg_edges(*g).dom().contains(#[trigger] r@[i].0) && sg_edges(
                *g,
            )[r@[i].0].src == id && sg_edges(*g)[r@[i].0].dst == r@[i].1 && sg_edges(
                *g,
            )[r@[i].0].weight == r@[i].2,
        forall|eid: usize|
            sg_edges(*g).dom().contains(eid) && (#[trigger] sg_edges(*g)[eid]).src == id
                ==> exists|i: int| 0 <= i < r@.len() && r@[i].0 == eid,
{
    g.edges_directed(petgraph::stable_graph::NodeIndex::new(id), petgraph::Direction::Outgoing).map(
        |e| (e.id().index(), e.target().index(), *e.weight()),
    ).collect()
}

/// A set of node identifiers, stored without duplicates.
#[derive(Debug)]
pub struct NodeSet {
    pub items: Vec<usize>,
}

impl NodeSet {
    pub open spec fn set(&self) -> Set<usize> {
        self.items@.to_set()
    }

    pub open spec fn wf(&self) -> bool {
        forall|i: int, j: int| 0 <= i < j < self.items@.len() ==> self.items@[i] != self.items@[j]
    }

    pub fn new() -> (r: NodeSet)
        ensures
            r.wf(),
            r.set() == Set::<usize>::empty(),
    {
        let r = NodeSet { items: Vec::new() };
        proof {
            assert(r.set() =~= Set::<usize>::empty());
        }
        r
    }

    pub fn contains(&self, x: usize) -> (r: bool)
        ensures
            r == self.set().contains(x),
    {
        let n = self.items.len();
        let mut i: usize = 0;
        while i < n
            invariant
                i <= n,
                n == self.items@.len(),
                forall|k: int| 0 <= k < i as int ==> self.items@[k] != x,
            decreases n - i,
        {
            if self.items[i] == x {
                assert(self.items@.contains(x));
                return true;
            }
            i += 1;
        }
        assert(!self.items@.contains(x));
        false
    }

    pub fn insert(&mut self, x: usize)
        requires
            old(self).wf(),
        ensures
            final(self).wf(),
            final(self).set() == old(self).set().insert(x),
    {
        if !self.contains(x) {
            let ghost before = self.items@;
            self.items.push(x);
            proof {
                assert forall|y: usize| final(self).set().contains(y) <==> old(self).set().insert(
                    x,
                ).contains(y) by {
                    if self.items@.contains(y) {
                        let i = choose|i: int|
                            0 <= i < self.items@.len() && self.items@[i] == y;
                        if i < before.len() {
                            assert(before[i] == y);
                        }
                    }
                    if before.contains(y) {
                        let i = choose|i: int| 0 <= i < before.len() && before[i] == y;
                        assert(self.items@[i] == y);
                    }
                    if y == x {
                        assert(self.items@[before.len() as int] == x);
                    }
                }
                assert(final(self).set() =~= old(self).set().insert(x));
            }
        } else {
            proof {
                assert(final(self).set() =~= old(self).set().insert(x));
            }
        }
    }

    pub fn remove(&mut self, x: usize)
        requires
            old(self).wf(),
        ensures
            final(self).wf(),
            final(self).set() == old(self).set().remove(x),
    {
        let n = self.items.len();
        let mut out: Vec<usize> = Vec::new();
        let mut i: usize = 0;
        while i < n
            invariant
                i <= n,
                n == self.items@.len(),
                old(self).wf(),
                self.items@ == old(self).items@,
                forall|k: int, l: int| 0 <= k < l < out@.len() ==> out@[k] != out@[l],
                forall|k: int| 0 <= k < out@.len() ==> out@[k] != x,
                forall|k: int|
                    0 <= k < out@.len() ==> exists|l: int|
                        0 <= l < i as int && self.items@[l] == #[trigger] out@[k],
                forall|l: int|
                    0 <= l < i as int && self.items@[l] != x ==> out@.contains(#[trigger] self.items@[l]),
            decreases n - i,
        {
            let v = self.items[i];
            if v != x {
                let ghost obefore = out@;
                out.push(v);
                proof {
                    assert forall|k: int| 0 <= k < out@.len() implies out@[k] != x by {
                        if k < obefore.len() {
                            assert(out@[k] == obefore[k]);
                        }
                    }
                    assert forall|k: int, l: int| 0 <= k < l < out@.len() implies out@[k]
                        != out@[l] by {
                        if l == out@.len() - 1 {
                            let ghost m = choose|m: int|
                                0 <= m < i as int && self.items@[m] == out@[k];
                            assert(self.items@[m] != self.items@[i as int]);
                        }
                    }
                    assert forall|l: int|
                        0 <= l < i as int + 1 && self.items@[l] != x implies out@.contains(
                        self.items@[l],
                    ) by {
                        if l < i as int {
                            let m = choose|m: int|
                                0 <= m < obefore.len() && obefore[m] == self.items@[l];
                            assert(out@[m] == self.items@[l]);
                        } else {
                            assert(out@[out@.len() - 1] == self.items@[l]);
                        }
                    }
                }
            }
            i += 1;
        }
        self.items = out;
        proof {
            assert forall|y: usize| final(self).set().contains(y) <==> old(self).set().remove(
                x,
            ).contains(y) by {
                if self.items@.contains(y) {
                    let k = choose|k: int| 0 <= k < self.items@.len() && self.items@[k] == y;
                    let l = choose|l: int|
                        0 <= l < old(self).items@.len() && old(self).items@[l] == y;
                }
                if old(self).items@.contains(y) && y != x {
                    let l = choose|l: int|
                        0 <= l < old(self).items@.len() && old(self).items@[l] == y;
                }
            }
            assert(final(self).set() =~= old(self).set().remove(x));
        }
    }

    /// The members, as a plain vector without duplicates.
    pub fn ids(&self) -> (r: Vec<usize>)
        ensures
            r@ == self.items@,
    {
        self.items.clone()
    }
}

/// Insert-only map from a replaced node to its replacement; a later
/// insertion for the same key wins.
pub open spec fn remap_of(s: Seq<(usize, usize)>) -> Map<usize, usize>
    decreases s.len(),
{
    if s.len() == 0 {
        Map::empty()
    } else {
        remap_of(s.drop_last()).insert(s.last().0, s.last().1)
    }
}

/// Bookkeeping for external references to substituted nodes.
#[derive(Debug)]
pub struct RemapTable {
    pub pairs: Vec<(usize, usize)>,
}

impl RemapTable {
    pub open spec fn map(&self) -> Map<usize, usize> {
        remap_of(self.pairs@)
    }

    pub fn new() -> (r: RemapTable)
        ensures
            r.map() == Map::<usize, usize>::empty(),
    {
        RemapTable { pairs: Vec::new() }
    }

    pub fn insert(&mut self, k: usize, v: usize)
        ensures
            final(self).map() == old(self).map().insert(k, v),
    {
        self.pairs.push((k, v));
        proof {
            assert(self.pairs@.drop_last() =~= old(self).pairs@);
        }
    }
}

/// The mathematical content of a node: operator plus the abstract view
/// (producing node, extents, broadcast flags).
pub struct NodeAbs {
    pub op: Op,
    pub tensor_id: usize,
    pub dims: Seq<usize>,
    pub fake: Seq<bool>,
}

/// Abstraction of a stored node weight.
pub open spec fn node_abs(d: NodeData) -> NodeAbs {
    NodeAbs {
        op: d.op,
        tensor_id: d.view.tensor_id,
        dims: d.view.shape.dims@,
        fake: d.view.shape.fake@,
    }
}

/// The mutable operation DAG, together with the retrieval set and the
/// bookkeeping that keeps external references valid across substitution.
#[derive(Debug)]
pub struct Graph {
    pub graph: StableGraph<NodeData, u8, petgraph::Directed, usize>,
    pub to_retrieve: NodeSet,
    pub no_delete: NodeSet,
    pub id_remap: RemapTable,
}

impl Graph {
    /// Node identifier to abstract node content.
    pub open spec fn nodes(&self) -> Map<usize, NodeAbs> {
        sg_nodes(self.graph).map_values(|d: NodeData| node_abs(d))
    }

    /// Edge identifier to endpoints and weight.
    pub open spec fn edges(&self) -> Map<usize, EdgeData> {
        sg_edges(self.graph)
    }

    pub open spec fn retrieve(&self) -> Set<usize> {
        self.to_retrieve.set()
    }

    pub open spec fn nodelete(&self) -> Set<usize> {
        self.no_delete.set()
    }

    pub open spec fn remap(&self) -> Map<usize, usize> {
        self.id_remap.map()
    }

    /// Every edge endpoint and every externally referenced node is a
    /// live node.
    pub open spec fn wf(&self) -> bool {
        &&& forall|e: usize| #[trigger]
            self.edges().dom().contains(e) ==> self.nodes().dom().contains(self.edges()[e].src)
                && self.nodes().dom().contains(self.edges()[e].dst)
        &&& forall|n: usize| #[trigger] self.retrieve().contains(n) ==> self.nodes().dom().contains(n)
        &&& forall|n: usize| #[trigger] self.nodelete().contains(n) ==> self.nodes().dom().contains(n)
        &&& self.to_retrieve.wf()
        &&& self.no_delete.wf()
    }

    pub fn new() -> (g: Graph)
        ensures
            g.wf(),
            g.nodes().dom() == Set::<usize>::empty(),
            g.edges().dom() == Set::<usize>::empty(),
            g.retrieve() == Set::<usize>::empty(),
            g.nodelete() == Set::<usize>::empty(),
            g.remap().dom() == Set::<usize>::empty(),
    {
        let g = Graph {
            graph: sg_new(),
            to_retrieve: NodeSet::new(),
            no_delete: NodeSet::new(),
            id_remap: RemapTable::new(),
        };
        proof {
            assert(g.nodes().dom() =~= Set::<usize>::empty());
            assert(g.remap().dom() =~= Set::<usize>::empty());
        }
        g
    }

    /// Add a node; its identifier is fresh and every existing node and
    /// edge is untouched.
    pub fn add_node(&mut self, op: Op, view: TensorView) -> (id: usize)
        requires
            old(self).wf(),
        ensures
            final(self).wf(),
            !old(self).nodes().dom().contains(id),
            final(self).nodes() == old(self).nodes().insert(id, node_abs(NodeData { op, view })),
            final(self).edges() == old(self).edges(),
            final(self).retrieve() == old(self).retrieve(),
            final(self).nodelete() == old(self).nodelete(),
            final(self).remap() == old(self).remap(),
    {
        let ghost ab = node_abs(NodeData { op, view });
        let id = sg_add_node(&mut self.graph, NodeData { op, view });
        proof {
            assert(self.nodes() =~= old(self).nodes().insert(id, ab));
            assert forall|e: usize| #[trigger] self.edges().dom().contains(e) implies self.nodes().dom().contains(self.edges()[e].src)
                && self.nodes().dom().contains(self.edges()[e].dst) by {
                assert(old(self).edges().dom().contains(e));
                assert(old(self).nodes().dom().contains(old(self).edges()[e].src));
                assert(old(self).nodes().dom().contains(old(self).edges()[e].dst));
            }
            assert forall|n: usize| #[trigger] self.retrieve().contains(n) implies self.nodes().dom().contains(n) by {
                assert(old(self).retrieve().contains(n));
                assert(old(self).nodes().dom().contains(n));
            }
            assert forall|n: usize| #[trigger] self.nodelete().contains(n) implies self.nodes().dom().contains(n) by {
                assert(old(self).nodelete().contains(n));
                assert(old(self).nodes().dom().contains(n));
            }
        }
        id
    }

    /// The operator stored at a node.
    pub fn node_op(&self, id: usize) -> (r: Option<Op>)
        ensures
            match r {
                Some(op) => self.nodes().dom().contains(id) && op == self.nodes()[id].op,
                None => !self.nodes().dom().contains(id),
            },
    {
        match sg_node_weight(&self.graph, id) {
            Some(w) => Some(w.op),
            None => None,
        }
    }

    /// The view stored at a node.
    pub fn node_view(&self, id: usize) -> (r: Option<TensorView>)
        ensures
            match r {
                Some(v) => self.nodes().dom().contains(id) && v.tensor_id
                    == self.nodes()[id].tensor_id && v.shape.dims@ == self.nodes()[id].dims
                    && v.shape.fake@ == self.nodes()[id].fake,
                None => !self.nodes().dom().contains(id),
            },
    {
        match sg_node_weight(&self.graph, id) {
            Some(w) => Some(w.view.clone()),
            None => None,
        }
    }

    /// Replace the operator slot of a node; identity, edges and view are
    /// preserved.
    pub fn set_node_op(&mut self, id: usize, op: Op) -> (ok: bool)
        requires
            old(self).wf(),
        ensures
            final(self).wf(),
            ok == old(self).nodes().dom().contains(id),
            final(self).nodes() == if old(self).nodes().dom().contains(id) {
                old(self).nodes().insert(
                    id,
                    (NodeAbs {
                        op,
                        tensor_id: old(self).nodes()[id].tensor_id,
                        dims: old(self).nodes()[id].dims,
                        fake: old(self).nodes()[id].fake,
                    }),
                )
            } else {
                old(self).nodes()
            },
            final(self).edges() == old(self).edges(),
            final(self).retrieve() == old(self).retrieve(),
            final(self).nodelete() == old(self).nodelete(),
            final(self).remap() == old(self).remap(),
    {
        let view_opt = match sg_node_weight(&self.graph, id) {
            Some(w) => Some(w.view.clone()),
            None => None,
        };
        match view_opt {
            Some(v) => {
                let ok = sg_set_node_weight(&mut self.graph, id, NodeData { op, view: v });
                proof {
                    assert(self.nodes() =~= old(self).nodes().insert(
                        id,
                        (NodeAbs {
                            op,
                            tensor_id: old(self).nodes()[id].tensor_id,
                            dims: old(self).nodes()[id].dims,
                            fake: old(self).nodes()[id].fake,
                        }),
                    ));
                    assert(self.nodes().dom() =~= old(self).nodes().dom());
                    assert forall|e: usize| #[trigger] self.edges().dom().contains(e) implies self.nodes().dom().contains(self.edges()[e].src)
                        && self.nodes().dom().contains(self.edges()[e].dst) by {
                        assert(old(self).edges().dom().contains(e));
                        assert(old(self).nodes().dom().contains(old(self).edges()[e].src));
                        assert(old(self).nodes().dom().contains(old(self).edges()[e].dst));
                    }
                    assert forall|n: usize| #[trigger] self.retrieve().contains(n) implies self.nodes().dom().contains(n) by {
                        assert(old(self).retrieve().contains(n));
                        assert(old(self).nodes().dom().contains(n));
                    }
                    assert forall|n: usize| #[trigger] self.nodelete().contains(n) implies self.nodes().dom().contains(n) by {
                        assert(old(self).nodelete().contains(n));
                        assert(old(self).nodes().dom().contains(n));
                    }
                }
                ok
            },
            None => false,
        }
    }

    /// Add an edge between live nodes; its identifier is fresh.
    pub fn add_edge(&mut self, src: usize, dst: usize, w: u8) -> (eid: usize)
        requires
            old(self).wf(),
            old(self).nodes().dom().contains(src),
            old(self).nodes().dom().contains(dst),
        ensures
            final(self).wf(),
            !old(self).edges().dom().contains(eid),
            final(self).edges() == old(self).edges().insert(eid, (EdgeData { src, dst, weight: w })),
            final(self).nodes() == old(self).nodes(),
            final(self).retrieve() == old(self).retrieve(),
            final(self).nodelete() == old(self).nodelete(),
            final(self).remap() == old(self).remap(),
    {
        let eid = sg_add_edge(&mut self.graph, src, dst, w);
        proof {
            assert(self.nodes() =~= old(self).nodes());
            assert forall|e: usize| #[trigger] self.edges().dom().contains(e) implies self.nodes().dom().contains(self.edges()[e].src)
                && self.nodes().dom().contains(self.edges()[e].dst) by {
                if e != eid {
                    assert(old(self).edges().dom().contains(e));
                    assert(self.edges()[e] == old(self).edges()[e]);
                    assert(old(self).nodes().dom().contains(old(self).edges()[e].src));
                    assert(old(self).nodes().dom().contains(old(self).edges()[e].dst));
                }
            }
            assert forall|n: usize| #[trigger] self.retrieve().contains(n) implies self.nodes().dom().contains(n) by {
                assert(old(self).retrieve().contains(n));
                assert(old(self).nodes().dom().contains(n));
            }
            assert forall|n: usize| #[trigger] self.nodelete().contains(n) implies self.nodes().dom().contains(n) by {
                assert(old(self).nodelete().contains(n));
                assert(old(self).nodes().dom().contains(n));
            }
        }
        eid
    }

    /// Remove an edge by identifier; returns its weight when it was live.
    pub fn remove_edge(&mut self, eid: usize) -> (r: Option<u8>)
        requires
            old(self).wf(),
        ensures
            final(self).wf(),
            final(self).nodes() == old(self).nodes(),
            final(self).retrieve() == old(self).retrieve(),
            final(self).nodelete() == old(self).nodelete(),
            final(self).remap() == old(self).remap(),
            match r {
                Some(w) => old(self).edges().dom().contains(eid) && w == old(self).edges()[eid].weight
                    && final(self).edges() == old(self).edges().remove(eid),
                None => !old(self).edges().dom().contains(eid) && final(self).edges() == old(self).edges(),
            },
    {
        let r = sg_remove_edge(&mut self.graph, eid);
        proof {
            assert(self.nodes() =~= old(self).nodes());
            assert forall|e: usize| #[trigger] self.edges().dom().contains(e) implies self.nodes().dom().contains(self.edges()[e].src)
                && self.nodes().dom().contains(self.edges()[e].dst) by {
                assert(old(self).edges().dom().contains(e));
                assert(self.edges()[e] == old(self).edges()[e]);
                assert(old(self).nodes().dom().contains(old(self).edges()[e].src));
                assert(old(self).nodes().dom().contains(old(self).edges()[e].dst));
            }
            assert forall|n: usize| #[trigger] self.retrieve().contains(n) implies self.nodes().dom().contains(n) by {
                assert(old(self).retrieve().contains(n));
                assert(old(self).nodes().dom().contains(n));
            }
            assert forall|n: usize| #[trigger] self.nodelete().contains(n) implies self.nodes().dom().contains(n) by {
                assert(old(self).nodelete().contains(n));
                assert(old(self).nodes().dom().contains(n));
            }
        }
        r
    }

    /// Every live node identifier, each exactly once.
    pub fn node_ids(&self) -> (r: Vec<usize>)
        ensures
            forall|i: int, j: int| 0 <= i < j < r@.len() ==> r@[i] != r@[j],
            forall|i: int| 0 <= i < r@.len() ==> self.nodes().dom().contains(#[trigger] r@[i]),
            forall|id: usize| #[trigger] self.nodes().dom().contains(id) ==> r@.contains(id),
    {
        sg_node_indices(&self.graph)
    }

    /// The outgoing edges of a node as `(edge, target, weight)`, each
    /// exactly once.
    pub fn outgoing(&self, id: usize) -> (r: Vec<(usize, usize, u8)>)
        ensures
            forall|i: int, j: int| 0 <= i < j < r@.len() ==> r@[i].0 != r@[j].0,
            forall|i: int|
                0 <= i < r@.len() ==> self.edges().dom().contains(#[trigger] r@[i].0) && self.edges()[r@[i].0].src == id
                    && self.edges()[r@[i].0].dst == r@[i].1 && self.edges()[r@[i].0].weight == r@[i].2,
            forall|eid: usize|
                self.edges().dom().contains(eid) && (#[trigger] self.edges()[eid]).src == id
                    ==> exists|i: int| 0 <= i < r@.len() && r@[i].0 == eid,
    {
        sg_outgoing(&self.graph, id)
    }

    /// Add a node wired to one input, as the front end's builder does.
    /// Returns the node and the connecting edge.
    pub fn add_op(&mut self, op: Op, view: TensorView, input: usize) -> (r: (usize, usize))
        requires
            old(self).wf(),
            old(self).nodes().dom().contains(input),
        ensures
            final(self).wf(),
            !old(self).nodes().dom().contains(r.0),
            !old(self).edges().dom().contains(r.1),
            final(self).nodes() == old(self).nodes().insert(r.0, node_abs(NodeData { op, view })),
            final(self).edges() == old(self).edges().insert(r.1, (EdgeData { src: input, dst: r.0, weight: 0 })),
            final(self).retrieve() == old(self).retrieve(),
            final(self).nodelete() == old(self).nodelete(),
            final(self).remap() == old(self).remap(),
    {
        let id = self.add_node(op, view);
        let eid = self.add_edge(input, id, 0);
        (id, eid)
    }

    pub fn contains_retrieve(&self, id: usize) -> (r: bool)
        ensures
            r == self.retrieve().contains(id),
    {
        self.to_retrieve.contains(id)
    }

    /// Mark a live node for retrieval.
    pub fn mark_retrieve(&mut self, id: usize)
        requires
            old(self).wf(),
            old(self).nodes().dom().contains(id),
        ensures
            final(self).wf(),
            final(self).retrieve() == old(self).retrieve().insert(id),
            final(self).nodes() == old(self).nodes(),
            final(self).edges() == old(self).edges(),
            final(self).nodelete() == old(self).nodelete(),
            final(self).remap() == old(self).remap(),
    {
        self.to_retrieve.insert(id);
        proof {
            assert(self.nodes() =~= old(self).nodes());
            assert forall|n: usize| #[trigger] self.retrieve().contains(n) implies self.nodes().dom().contains(n) by {
                if n != id {
                    assert(old(self).retrieve().contains(n));
                    assert(old(self).nodes().dom().contains(n));
                }
            }
            assert forall|e: usize| #[trigger] self.edges().dom().contains(e) implies self.nodes().dom().contains(self.edges()[e].src)
                && self.nodes().dom().contains(self.edges()[e].dst) by {
                assert(old(self).edges().dom().contains(e));
                assert(old(self).nodes().dom().contains(old(self).edges()[e].src));
                assert(old(self).nodes().dom().contains(old(self).edges()[e].dst));
            }
            assert forall|n: usize| #[trigger] self.nodelete().contains(n) implies self.nodes().dom().contains(n) by {
                assert(old(self).nodelete().contains(n));
                assert(old(self).nodes().dom().contains(n));
            }
        }
    }

    /// The retrieval set as a plain vector, each member exactly once.
    pub fn retrieve_ids(&self) -> (r: Vec<usize>)
        requires
            self.wf(),
        ensures
            forall|i: int, j: int| 0 <= i < j < r@.len() ==> r@[i] != r@[j],
            forall|i: int| 0 <= i < r@.len() ==> self.retrieve().contains(#[trigger] r@[i]),
            forall|id: usize| #[trigger] self.retrieve().contains(id) ==> r@.contains(id),
    {
        let r = self.to_retrieve.ids();
        proof {
            assert forall|i: int| 0 <= i < r@.len() implies self.retrieve().contains(r@[i]) by {
                assert(self.to_retrieve.items@.contains(r@[i]));
            }
            assert forall|id: usize| #[trigger] self.retrieve().contains(id) implies r@.contains(id) by {
                let k = choose|k: int|
                    0 <= k < self.to_retrieve.items@.len() && self.to_retrieve.items@[k] == id;
                assert(r@[k] == id);
            }
        }
        r
    }

    /// Transfer external references from a substituted node to its
    /// replacement: record the remap, and move no-delete and retrieval
    /// membership.
    pub fn move_references(&mut self, src: usize, trg: usize)
        requires
            old(self).wf(),
            old(self).nodes().dom().contains(trg),
        ensures
            final(self).wf(),
            final(self).nodes() == old(self).nodes(),
            final(self).edges() == old(self).edges(),
            final(self).remap() == old(self).remap().insert(src, trg),
            final(self).retrieve() == if old(self).retrieve().contains(src) {
                old(self).retrieve().remove(src).insert(trg)
            } else {
                old(self).retrieve()
            },
            final(self).nodelete() == if old(self).nodelete().contains(src) {
                old(self).nodelete().remove(src).insert(trg)
            } else {
                old(self).nodelete()
            },
    {
        self.id_remap.insert(src, trg);
        if self.no_delete.contains(src) {
            self.no_delete.remove(src);
            self.no_delete.insert(trg);
        }
        if self.to_retrieve.contains(src) {
            self.to_retrieve.remove(src);
            self.to_retrieve.insert(trg);
        }
        proof {
            assert(self.nodes() =~= old(self).nodes());
            assert forall|e: usize| #[trigger] self.edges().dom().contains(e) implies self.nodes().dom().contains(self.edges()[e].src)
                && self.nodes().dom().contains(self.edges()[e].dst) by {
                assert(old(self).edges().dom().contains(e));
                assert(old(self).nodes().dom().contains(old(self).edges()[e].src));
                assert(old(self).nodes().dom().contains(old(self).edges()[e].dst));
            }
            assert forall|n: usize| #[trigger] self.retrieve().contains(n) implies self.nodes().dom().contains(n) by {
                if n != trg {
                    assert(old(self).retrieve().contains(n));
                    assert(old(self).nodes().dom().contains(n));
                }
            }
            assert forall|n: usize| #[trigger] self.nodelete().contains(n) implies self.nodes().dom().contains(n) by {
                if n != trg {
                    assert(old(self).nodelete().contains(n));
                    assert(old(self).nodes().dom().contains(n));
                }
            }
        }
    }
}

} // verus!
