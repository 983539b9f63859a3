//! The graph structure that holds entities, as far as this library uses it.
use petgraph::stable_graph::{NodeIndex, StableGraph};
use petgraph::visit::{EdgeRef, IntoEdgeReferences};
use petgraph::Directed;
use vstd::prelude::*;

use crate::entity::{Entity, EntityView, RelationKind};
use crate::graph_model::{outgoing, EdgeView};

verus! {

/// Edges that have a direction.
#[verifier::external_type_specification]
#[verifier::external_body]
pub struct ExDirected(Directed);

/// A graph whose indices stay valid when other parts of it are removed.
#[verifier::external_type_specification]
#[verifier::external_body]
#[verifier::reject_recursive_types(N)]
#[verifier::reject_recursive_types(E)]
#[verifier::reject_recursive_types(Ty)]
#[verifier::reject_recursive_types(Ix)]
pub struct ExStableGraph<N, E, Ty, Ix>(StableGraph<N, E, Ty, Ix>);

/// Entities linked by kinds of relations.
pub type Store = StableGraph<Entity, RelationKind, Directed, u32>;

/// The weights of the nodes, in the order of their indices.
pub uninterp spec fn store_nodes(g: StableGraph<Entity, RelationKind, Directed, u32>) -> Seq<EntityView>;

/// The edges with the indices of their ends, in the order of their own
/// indices.
pub uninterp spec fn store_edges(g: StableGraph<Entity, RelationKind, Directed, u32>) -> Seq<EdgeView>;

/// Whether nothing was ever removed from the graph, so that the index of each
/// node and edge is its place in the order in which they were added.
pub uninterp spec fn store_grown(g: StableGraph<Entity, RelationKind, Directed, u32>) -> bool;

/// `StableGraph::with_capacity` with no room set aside: a graph without nodes
/// and edges, from which nothing was removed.
#[verifier::external_body]
pub(crate) fn new_store() -> (g: Store)
    ensures
        store_nodes(g) == Seq::<EntityView>::empty(),
        store_edges(g) == Seq::<EdgeView>::empty(),
        store_grown(g),
{
    StableGraph::with_capacity(0, 0)
}

/// `StableGraph::add_node`: where nothing was removed the new node gets the
/// next index. It panics where all indices are taken.
#[verifier::external_body]
pub(crate) fn add_node(g: &mut Store, e: Entity) -> (i: usize)
    requires
        store_grown(*old(g)),
        store_nodes(*old(g)).len() < u32::MAX,
    ensures
        i == store_nodes(*old(g)).len(),
        store_nodes(*final(g)) == store_nodes(*old(g)).push(e@),
        store_edges(*final(g)) == store_edges(*old(g)),
        store_grown(*final(g)),
{
    g.add_node(e).index()
}

/// `StableGraph::add_edge`: where nothing was removed the new edge gets the
/// next index. It panics where all indices are taken or an end does not exist.
#[verifier::external_body]
pub(crate) fn add_edge(g: &mut Store, source: usize, target: usize, kind: RelationKind)
    requires
        store_grown(*old(g)),
        source < store_nodes(*old(g)).len(),
        target < store_nodes(*old(g)).len(),
        store_edges(*old(g)).len() < u32::MAX,
    ensures
        store_nodes(*final(g)) == store_nodes(*old(g)),
        store_edges(*final(g)) == store_edges(*old(g)).push(
            EdgeView { source: source as int, target: target as int, kind: kind@ },
        ),
        store_grown(*final(g)),
{
    g.add_edge(NodeIndex::new(source), NodeIndex::new(target), kind);
}

/// Indexing a `StableGraph` by a node: the weight of that node.
#[verifier::external_body]
pub(crate) fn node(g: &Store, i: usize) -> (e: &Entity)
    requires
        store_grown(*g),
        i < store_nodes(*g).len(),
    ensures
        e@ == store_nodes(*g)[i as int],
{
    &g[NodeIndex::new(i)]
}

/// Mutable indexing of a `StableGraph` by a node: the weight of that node, and
/// nothing else, takes the value that the caller leaves there.
#[verifier::external_body]
pub(crate) fn node_mut(g: &mut Store, i: usize) -> (e: &mut Entity)
    requires
        store_grown(*old(g)),
        i < store_nodes(*old(g)).len(),
    ensures
        e@ == store_nodes(*old(g))[i as int],
        store_nodes(*final(g)) == store_nodes(*old(g)).update(i as int, final(e)@),
        store_edges(*final(g)) == store_edges(*old(g)),
        store_grown(*final(g)),
{
    &mut g[NodeIndex::new(i)]
}

/// `StableGraph::node_count`: the number of nodes.
#[verifier::external_body]
pub(crate) fn node_count(g: &Store) -> (n: usize)
    ensures
        n == store_nodes(*g).len(),
{
    g.node_count()
}

/// `StableGraph::edge_count`: the number of edges.
#[verifier::external_body]
pub(crate) fn edge_count(g: &Store) -> (n: usize)
    ensures
        n == store_edges(*g).len(),
{
    g.edge_count()
}

/// `StableGraph::node_weights`: the weights in the order of the node indices.
#[verifier::external_body]
pub(crate) fn node_weights(g: &Store) -> (es: Vec<&Entity>)
    ensures
        es@.map_values(|e: &Entity| e@) == store_nodes(*g),
{
    g.node_weights().collect()
}

/// `StableGraph::edges`: the targets and weights of the edges out of a node,
/// the last one that was added first, where nothing was removed.
#[verifier::external_body]
pub(crate) fn edges_from(g: &Store, i: usize) -> (es: Vec<(usize, &RelationKind)>)
    requires
        store_grown(*g),
        i < store_nodes(*g).len(),
    ensures
        es@.map_values(
            |e: (usize, &RelationKind)|
                EdgeView { source: i as int, target: e.0 as int, kind: e.1@ },
        ) == outgoing(store_edges(*g), i as int),
{
    g.edges(NodeIndex::new(i)).map(|e| (e.target().index(), e.weight())).collect()
}

/// `IntoEdgeReferences::edge_references`: the edges in the order of their
/// indices.
#[verifier::external_body]
pub(crate) fn all_edges(g: &Store) -> (es: Vec<(usize, usize, &RelationKind)>)
    ensures
        es@.map_values(
            |e: (usize, usize, &RelationKind)|
                EdgeView { source: e.0 as int, target: e.1 as int, kind: e.2@ },
        ) == store_edges(*g),
{
    g.edge_references().map(|e| (e.source().index(), e.target().index(), e.weight())).collect()
}

} // verus!
