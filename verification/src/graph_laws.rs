//! What holds of entity graphs, in terms of the entities that were handed in.
use vstd::prelude::*;

use crate::entity::{entity_views, Confidence, Entity, EntityType, EntityView};
use crate::graph::{edge_snapshot_views, entity_ref_views, EntityGraph, GraphSnapshot};
use crate::graph_model::{
    empty_graph, lemma_node_of, lemma_place_of, links_from, node_of, of_type, place_of, EdgeView,
    GraphModel, LinkView,
};

verus! {

/// Whether two entities stand for the same artifact: they have the same kind
/// and the same value.
pub open spec fn same_artifact(a: EntityView, b: EntityView) -> bool {
    a.entity_type == b.entity_type && a.value == b.value
}

/// Confidences that are not negative are compared by size, and a negative one
/// is less than any other: the bits of greater numbers are greater.
pub proof fn law_confidences_are_compared_by_size(a: Confidence, b: Confidence)
    ensures
        a.bits <= 0x7F80_0000 && b.bits <= 0x7F80_0000 ==> (a.exceeds_spec(b) <==> a.bits > b.bits),
        0 < a.bits <= 0x7F80_0000 && 0x8000_0000 <= b.bits <= 0xFF80_0000 ==> a.exceeds_spec(b)
            && !b.exceeds_spec(a),
        0x8000_0000 <= a.bits <= 0xFF80_0000 && 0x8000_0000 <= b.bits <= 0xFF80_0000 ==> (
        a.exceeds_spec(b) <==> a.bits < b.bits),
{
}

/// An artifact that is new becomes the last node, as it is.
pub proof fn law_a_new_artifact_becomes_a_node(m: GraphModel, e: EntityView)
    requires
        forall|i: int| 0 <= i < m.nodes.len() ==> !same_artifact(#[trigger] m.nodes[i], e),
    ensures
        m.with_entity(e).nodes == m.nodes.push(e),
        m.kept_id(e) == e.id,
{
    lemma_place_of(m.nodes, e.entity_type, e.value);
    if let Some(i) = place_of(m.nodes, e.entity_type, e.value) {
        assert(same_artifact(m.nodes[i], e));
    }
}

/// An artifact that is known refreshes its node and no other: the node keeps
/// its id, source and relations, takes the time of the later discovery, has the
/// greater of both confidences, and gains detail.
pub proof fn law_a_known_artifact_refreshes_its_node(m: GraphModel, e: EntityView, i: int, j: int)
    requires
        m.well_formed(),
        0 <= i < m.nodes.len(),
        same_artifact(m.nodes[i], e),
    ensures
        ({
            let after = m.with_entity(e).nodes;
            &&& after.len() == m.nodes.len()
            &&& 0 <= j < m.nodes.len() && j != i ==> after[j] == m.nodes[j]
            &&& same_artifact(after[i], e)
            &&& after[i].id == m.nodes[i].id
            &&& after[i].source == m.nodes[i].source
            &&& after[i].relations == m.nodes[i].relations
            &&& after[i].timestamp == e.timestamp
            &&& after[i].confidence == if e.confidence.exceeds_spec(m.nodes[i].confidence) {
                e.confidence
            } else {
                m.nodes[i].confidence
            }
            &&& after[i].metadata == m.nodes[i].metadata.merged(e.metadata)
            &&& m.kept_id(e) == m.nodes[i].id
        }),
{
    lemma_place_of(m.nodes, e.entity_type, e.value);
    match place_of(m.nodes, e.entity_type, e.value) {
        Some(k) => {
            if k < i {
                assert(m.nodes[k].entity_type != m.nodes[i].entity_type || m.nodes[k].value
                    != m.nodes[i].value);
            } else if i < k {
                assert(m.nodes[i].entity_type != m.nodes[k].entity_type || m.nodes[i].value
                    != m.nodes[k].value);
            }
        },
        None => {
            assert(m.nodes[i].entity_type != e.entity_type || m.nodes[i].value != e.value);
        },
    }
}

/// Whether a node came from an entity that was handed in, the first of its
/// kind and value.
pub open spec fn first_seen_as(es: Seq<EntityView>, k: int, node: EntityView) -> bool {
    &&& 0 <= k < es.len()
    &&& same_artifact(es[k], node)
    &&& es[k].id == node.id
    &&& es[k].source == node.source
    &&& forall|j: int| 0 <= j < k ==> !same_artifact(#[trigger] es[j], node)
}

/// The graph of some entities has a node for each of them, and each node came
/// from one of them: it has the id and the source of the first with its kind
/// and value.
pub proof fn law_a_graph_holds_what_was_handed_in(es: Seq<EntityView>, k: int, n: int)
    ensures
        ({
            let nodes = empty_graph().with_entities(es).nodes;
            &&& 0 <= k < es.len() ==> exists|i: int|
                0 <= i < nodes.len() && same_artifact(#[trigger] nodes[i], es[k])
            &&& 0 <= n < nodes.len() ==> exists|i: int| #[trigger] first_seen_as(es, i, nodes[n])
        }),
    decreases es.len(),
{
    let nodes = empty_graph().with_entities(es).nodes;
    if es.len() > 0 {
        let front = es.drop_last();
        let m = empty_graph().with_entities(front);
        let e = es.last();
        lemma_place_of(m.nodes, e.entity_type, e.value);
        assert forall|j: int| 0 <= j < front.len() implies front[j] == #[trigger] es[j] by {}
        let place = place_of(m.nodes, e.entity_type, e.value);
        // Each entity has a node.
        if 0 <= k < front.len() {
            law_a_graph_holds_what_was_handed_in(front, k, -1);
            let i = choose|i: int|
                0 <= i < m.nodes.len() && same_artifact(#[trigger] m.nodes[i], front[k]);
            assert(same_artifact(nodes[i], es[k]));
        } else if k == front.len() {
            match place {
                Some(i) => assert(same_artifact(nodes[i], es[k])),
                None => assert(same_artifact(nodes[m.nodes.len() as int], es[k])),
            }
        }
        // Each node came from an entity.
        if 0 <= n < m.nodes.len() {
            law_a_graph_holds_what_was_handed_in(front, -1, n);
            let i = choose|i: int| #[trigger] first_seen_as(front, i, m.nodes[n]);
            assert(es[i] == front[i]);
            assert forall|j: int| 0 <= j < i implies !same_artifact(
                #[trigger] es[j],
                nodes[n],
            ) by {
                assert(front[j] == es[j]);
            }
            assert(first_seen_as(es, i, nodes[n]));
        } else if n == m.nodes.len() && place is None {
            let i = front.len() as int;
            assert forall|j: int| 0 <= j < i implies !same_artifact(
                #[trigger] es[j],
                nodes[n],
            ) by {
                law_a_graph_holds_what_was_handed_in(front, j, -1);
                let x = choose|x: int|
                    0 <= x < m.nodes.len() && same_artifact(#[trigger] m.nodes[x], front[j]);
                assert(!same_artifact(m.nodes[x], e));
            }
            assert(first_seen_as(es, i, nodes[n]));
        }
    }
}

/// Whether an edge joins the entities with the given ids.
pub open spec fn joins(m: GraphModel, edge: EdgeView, link: LinkView) -> bool {
    &&& 0 <= edge.source < m.nodes.len()
    &&& 0 <= edge.target < m.nodes.len()
    &&& m.nodes[edge.source].id == link.source
    &&& m.nodes[edge.target].id == link.target
    &&& edge.kind == link.kind
}

/// Whether a node has the given id.
pub open spec fn has_id(m: GraphModel, id: u128) -> bool {
    exists|i: int| 0 <= i < m.nodes.len() && (#[trigger] m.nodes[i]).id == id
}

/// Whether a relation waited in a graph, or comes with a new entity that is
/// kept under the given id.
pub open spec fn is_asked_for(m: GraphModel, e: EntityView, link: LinkView) -> bool {
    m.pending.contains(link) || exists|r: int|
        0 <= r < e.relations.len() && (#[trigger] e.relations[r]).target == link.target
            && e.relations[r].kind == link.kind && link.source == m.kept_id(e)
}

proof fn lemma_asked_for(m: GraphModel, e: EntityView, link: LinkView)
    ensures
        m.inserted(e).pending.contains(link) <==> is_asked_for(m, e, link),
{
    let id = m.kept_id(e);
    let new = links_from(id, e.relations);
    let all = m.inserted(e).pending;
    assert(all == m.pending + new);
    if m.pending.contains(link) {
        let k = m.pending.index_of(link);
        assert(all[k] == link);
    }
    if exists|r: int|
        0 <= r < e.relations.len() && (#[trigger] e.relations[r]).target == link.target
            && e.relations[r].kind == link.kind && link.source == id {
        let r = choose|r: int|
            0 <= r < e.relations.len() && (#[trigger] e.relations[r]).target == link.target
                && e.relations[r].kind == link.kind && link.source == id;
        assert(all[m.pending.len() + r] == link);
    }
    if all.contains(link) {
        let k = all.index_of(link);
        if k < m.pending.len() {
            assert(m.pending[k] == link);
        } else {
            let r = k - m.pending.len();
            assert(new[r] == link);
            assert(e.relations[r].target == link.target);
        }
    }
}

/// Every relation that waited or comes with an entity is drawn between the
/// nodes with its ids, in its own direction and of its own kind, as soon as
/// both are there; until then it waits.
pub proof fn law_relations_are_drawn_when_both_ends_are_there(
    m: GraphModel,
    e: EntityView,
    link: LinkView,
)
    requires
        is_asked_for(m, e, link),
    ensures
        ({
            let after = m.with_entity(e);
            &&& has_id(after, link.source) && has_id(after, link.target) ==> exists|i: int|
                0 <= i < after.edges.len() && joins(after, #[trigger] after.edges[i], link)
            &&& !(has_id(after, link.source) && has_id(after, link.target))
                ==> after.pending.contains(link)
        }),
{
    let mid = m.inserted(e);
    let after = m.with_entity(e);
    let known = |l: LinkView| mid.knows(l);
    lemma_asked_for(m, e, link);
    lemma_node_of(after.nodes, link.source);
    lemma_node_of(after.nodes, link.target);
    let at = mid.pending.index_of(link);
    if has_id(after, link.source) && has_id(after, link.target) {
        assert(mid.knows(link)) by {
            let a = choose|i: int|
                0 <= i < after.nodes.len() && (#[trigger] after.nodes[i]).id == link.source;
            let b = choose|i: int|
                0 <= i < after.nodes.len() && (#[trigger] after.nodes[i]).id == link.target;
            assert(after.nodes[a].id == link.source && after.nodes[b].id == link.target);
        }
        mid.pending.lemma_filter_contains(known, at);
        let drawn = mid.pending.filter(known);
        let k = drawn.index_of(link);
        let i = mid.edges.len() + k;
        assert(after.edges[i] == mid.edge(link));
        assert(joins(after, after.edges[i], link));
    } else {
        let unknown = |l: LinkView| !mid.knows(l);
        if mid.knows(link) {
            let a = node_of(after.nodes, link.source)->0;
            let b = node_of(after.nodes, link.target)->0;
            assert(after.nodes[a].id == link.source && after.nodes[b].id == link.target);
        }
        mid.pending.lemma_filter_contains(unknown, at);
    }
}

/// Edges stay where they are, and every new edge joins the ends of a relation
/// that waited or came with the entity.
pub proof fn law_edges_stem_from_relations(m: GraphModel, e: EntityView, i: int)
    requires
        0 <= i < m.with_entity(e).edges.len(),
    ensures
        i < m.edges.len() ==> m.with_entity(e).edges[i] == m.edges[i],
        i >= m.edges.len() ==> exists|link: LinkView| #[trigger]
            is_asked_for(m, e, link) && joins(m.with_entity(e), m.with_entity(e).edges[i], link),
{
    let mid = m.inserted(e);
    let after = m.with_entity(e);
    let known = |l: LinkView| mid.knows(l);
    let drawn = mid.pending.filter(known);
    if i >= m.edges.len() {
        let k = i - m.edges.len();
        let link = drawn[k];
        mid.pending.lemma_filter_pred(known, k);
        assert(drawn.contains(link));
        mid.pending.lemma_filter_contains_rev(known, link);
        lemma_asked_for(m, e, link);
        lemma_node_of(after.nodes, link.source);
        lemma_node_of(after.nodes, link.target);
        assert(joins(after, after.edges[i], link));
    }
}

/// The links out of an entity are the edges out of its node, the latest first,
/// each with its kind and the entity at its other end.
pub proof fn law_links_are_the_edges_out_of_an_entity(m: GraphModel, id: u128, i: int, edge: EdgeView)
    requires
        node_of(m.nodes, id) == Some(i),
    ensures
        m.edges.len() == 0 ==> m.links_of(id).len() == 0,
        ({
            let more = GraphModel { edges: m.edges.push(edge), ..m };
            more.links_of(id) == if edge.source == i {
                seq![(edge.kind, m.nodes[edge.target])] + m.links_of(id)
            } else {
                m.links_of(id)
            }
        }),
        0 <= i < m.nodes.len(),
        m.nodes[i].id == id,
{
    lemma_node_of(m.nodes, id);
    let out = |e: EdgeView| e.source == i;
    let pair = |e: EdgeView| (e.kind, m.nodes[e.target]);
    let more = GraphModel { edges: m.edges.push(edge), ..m };
    let before = m.edges.filter(out);
    reveal(Seq::filter);
    if m.edges.len() == 0 {
        assert(before.len() == 0);
    }
    assert(m.edges.push(edge).drop_last() == m.edges);
    let after = m.edges.push(edge).filter(out);
    if edge.source == i {
        assert(after == before.push(edge));
        assert(after.reverse() =~= seq![edge] + before.reverse());
        assert(more.links_of(id) =~= seq![pair(edge)] + m.links_of(id));
    } else {
        assert(after == before);
        assert(more.links_of(id) =~= m.links_of(id));
    }
}

/// An entity that is not there has no links.
pub proof fn law_an_unknown_entity_has_no_links(m: GraphModel, id: u128)
    requires
        !has_id(m, id),
    ensures
        node_of(m.nodes, id) is None,
        m.links_of(id).len() == 0,
{
    lemma_node_of(m.nodes, id);
    if let Some(i) = node_of(m.nodes, id) {
        assert(m.nodes[i].id == id);
    }
}

/// The nodes of a kind are those with that kind, in order.
pub proof fn law_nodes_of_a_kind_have_that_kind(
    nodes: Seq<EntityView>,
    e: EntityView,
    entity_type: EntityType,
)
    ensures
        of_type(Seq::empty(), entity_type) == Seq::<EntityView>::empty(),
        of_type(nodes.push(e), entity_type) == if e.entity_type == entity_type {
            of_type(nodes, entity_type).push(e)
        } else {
            of_type(nodes, entity_type)
        },
{
    reveal(Seq::filter);
    assert(nodes.push(e).drop_last() == nodes);
    assert(of_type(Seq::empty(), entity_type) =~= Seq::<EntityView>::empty());
}

/// In a snapshot every edge is told by the ids of the entities that it joins.
pub proof fn law_a_snapshot_tells_edges_by_ids(m: GraphModel, i: int)
    requires
        0 <= i < m.edges.len(),
    ensures
        m.links().len() == m.edges.len(),
        m.links()[i].source == m.nodes[m.edges[i].source].id,
        m.links()[i].target == m.nodes[m.edges[i].target].id,
        m.links()[i].kind == m.edges[i].kind,
{
}

/// An entity is found by its id where a node has it, and by its kind and value
/// where a node has both; else it is not found.
pub proof fn law_nodes_are_found(
    m: GraphModel,
    id: u128,
    entity_type: EntityType,
    value: Seq<char>,
)
    ensures
        match node_of(m.nodes, id) {
            Some(i) => 0 <= i < m.nodes.len() && m.nodes[i].id == id,
            None => !has_id(m, id),
        },
        match place_of(m.nodes, entity_type, value) {
            Some(i) => 0 <= i < m.nodes.len() && m.nodes[i].entity_type == entity_type
                && m.nodes[i].value == value,
            None => forall|i: int|
                0 <= i < m.nodes.len() ==> (#[trigger] m.nodes[i]).entity_type != entity_type
                    || m.nodes[i].value != value,
        },
{
    lemma_node_of(m.nodes, id);
    lemma_place_of(m.nodes, entity_type, value);
}

/// What is no number exceeds nothing, and nothing exceeds it.
pub proof fn law_what_is_no_number_is_not_compared(a: Confidence, b: Confidence)
    requires
        0x7F80_0000 < a.bits < 0x8000_0000 || 0xFF80_0000 < a.bits,
    ensures
        !a.exceeds_spec(b),
        !b.exceeds_spec(a),
{
}

/// What a graph hands out under an id has that id, and under a kind and value
/// has these; it hands out nothing only if it has nothing of the sort.
pub proof fn law_what_is_found_is_what_was_looked_for(
    g: &EntityGraph,
    id: u128,
    by_id: Option<&Entity>,
    entity_type: EntityType,
    value: &str,
    by_value: Option<&Entity>,
)
    requires
        call_ensures(EntityGraph::get, (g, id), by_id),
        call_ensures(EntityGraph::find_by_value, (g, entity_type, value), by_value),
    ensures
        by_id matches Some(e) ==> e@.id == id,
        by_id is Some <==> has_id(g@, id),
        by_value matches Some(e) ==> e@.entity_type == entity_type && e@.value == value@,
        by_value is Some <==> exists|i: int|
            0 <= i < g@.nodes.len() && (#[trigger] g@.nodes[i]).entity_type == entity_type
                && g@.nodes[i].value == value@,
{
    law_nodes_are_found(g@, id, entity_type, value@);
    if let Some(i) = node_of(g@.nodes, id) {
        assert(g@.nodes[i].id == id);
    }
    if let Some(i) = place_of(g@.nodes, entity_type, value@) {
        assert(g@.nodes[i].entity_type == entity_type);
    }
}

/// A snapshot has all nodes of the graph, and all its edges with their kinds,
/// by the ids of the entities that they join.
pub proof fn law_a_snapshot_has_everything(g: &EntityGraph, r: GraphSnapshot, i: int)
    requires
        call_ensures(EntityGraph::to_snapshot, (g,), r),
    ensures
        r.nodes@.len() == g@.nodes.len(),
        0 <= i < g@.nodes.len() ==> r.nodes@[i]@ == g@.nodes[i],
        r.edges@.len() == g@.edges.len(),
        0 <= i < g@.edges.len() ==> r.edges@[i]@.source == g@.nodes[g@.edges[i].source].id
            && r.edges@[i]@.target == g@.nodes[g@.edges[i].target].id && r.edges@[i]@.kind
            == g@.edges[i].kind,
{
    assert(entity_views(r.nodes@).len() == r.nodes@.len());
    assert(edge_snapshot_views(r.edges@).len() == r.edges@.len());
    if 0 <= i < g@.nodes.len() {
        assert(entity_views(r.nodes@)[i] == r.nodes@[i]@);
    }
    if 0 <= i < g@.edges.len() {
        assert(edge_snapshot_views(r.edges@)[i] == r.edges@[i]@);
    }
}

/// The entities of a kind that a graph hands out have that kind.
pub proof fn law_entities_of_a_kind_have_that_kind(
    g: &EntityGraph,
    entity_type: EntityType,
    r: Vec<&Entity>,
    e: EntityView,
)
    requires
        call_ensures(EntityGraph::entities_by_type, (g, entity_type), r),
    ensures
        entity_ref_views(r@).contains(e) <==> g@.nodes.contains(e) && e.entity_type == entity_type,
{
    let keep = |e: EntityView| e.entity_type == entity_type;
    let kept = g@.nodes.filter(keep);
    if kept.contains(e) {
        g@.nodes.lemma_filter_pred(keep, kept.index_of(e));
        g@.nodes.lemma_filter_contains_rev(keep, e);
    }
    if g@.nodes.contains(e) && e.entity_type == entity_type {
        g@.nodes.lemma_filter_contains(keep, g@.nodes.index_of(e));
    }
}

} // verus!
