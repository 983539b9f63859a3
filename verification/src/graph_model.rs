//! What an entity graph is: a mathematical model, and the laws it keeps.
use vstd::prelude::*;

use crate::entity::{Confidence, EntityType, EntityView, RelationKindView, RelationView};

verus! {

/// A link between two nodes, given by their positions.
pub struct EdgeView {
    pub source: int,
    pub target: int,
    pub kind: RelationKindView,
}

/// A relation between two entities, given by their ids.
pub struct LinkView {
    pub source: u128,
    pub target: u128,
    pub kind: RelationKindView,
}

/// The nodes in the order in which they came, the links between them in the
/// order in which they were drawn, and the relations that still wait for an
/// entity.
pub struct GraphModel {
    pub nodes: Seq<EntityView>,
    pub edges: Seq<EdgeView>,
    pub pending: Seq<LinkView>,
}

/// The position of the last node with the given id.
pub open spec fn node_of(nodes: Seq<EntityView>, id: u128) -> Option<int>
    decreases nodes.len(),
{
    if nodes.len() == 0 {
        None
    } else if nodes.last().id == id {
        Some(nodes.len() - 1)
    } else {
        node_of(nodes.drop_last(), id)
    }
}

/// The position of a node with the given kind and value.
pub open spec fn place_of(
    nodes: Seq<EntityView>,
    entity_type: EntityType,
    value: Seq<char>,
) -> Option<int>
    decreases nodes.len(),
{
    if nodes.len() == 0 {
        None
    } else if nodes.last().entity_type == entity_type && nodes.last().value == value {
        Some(nodes.len() - 1)
    } else {
        place_of(nodes.drop_last(), entity_type, value)
    }
}

/// The nodes of one kind.
pub open spec fn of_type(nodes: Seq<EntityView>, entity_type: EntityType) -> Seq<EntityView> {
    nodes.filter(|e: EntityView| e.entity_type == entity_type)
}

/// A known artifact seen again: it keeps its identity and its source, the
/// greater confidence counts, and the new detail adds to what is known.
pub open spec fn refreshed(known: EntityView, seen: EntityView) -> EntityView {
    EntityView {
        confidence: if seen.confidence.exceeds_spec(known.confidence) {
            seen.confidence
        } else {
            known.confidence
        },
        timestamp: seen.timestamp,
        metadata: known.metadata.merged(seen.metadata),
        ..known
    }
}

/// The relations of an entity as links from the given id.
pub open spec fn links_from(id: u128, relations: Seq<RelationView>) -> Seq<LinkView> {
    relations.map_values(
        |r: RelationView| LinkView { source: id, target: r.target, kind: r.kind },
    )
}

impl GraphModel {
    /// Whether both ends of a link are nodes.
    pub open spec fn knows(self, link: LinkView) -> bool {
        node_of(self.nodes, link.source) is Some && node_of(self.nodes, link.target) is Some
    }

    /// The edge for a link with known ends.
    pub open spec fn edge(self, link: LinkView) -> EdgeView {
        EdgeView {
            source: node_of(self.nodes, link.source)->0,
            target: node_of(self.nodes, link.target)->0,
            kind: link.kind,
        }
    }

    /// The graph once every waiting relation with known ends is drawn.
    pub open spec fn resolved(self) -> GraphModel {
        GraphModel {
            nodes: self.nodes,
            edges: self.edges + self.pending.filter(|l: LinkView| self.knows(l)).map_values(
                |l: LinkView| self.edge(l),
            ),
            pending: self.pending.filter(|l: LinkView| !self.knows(l)),
        }
    }

    /// The graph with one more artifact, its relations waiting.
    pub open spec fn inserted(self, e: EntityView) -> GraphModel {
        match place_of(self.nodes, e.entity_type, e.value) {
            Some(i) => GraphModel {
                nodes: self.nodes.update(i, refreshed(self.nodes[i], e)),
                pending: self.pending + links_from(self.nodes[i].id, e.relations),
                ..self
            },
            None => GraphModel {
                nodes: self.nodes.push(e),
                pending: self.pending + links_from(e.id, e.relations),
                ..self
            },
        }
    }

    /// The id under which an artifact is kept once it was added.
    pub open spec fn kept_id(self, e: EntityView) -> u128 {
        match place_of(self.nodes, e.entity_type, e.value) {
            Some(i) => self.nodes[i].id,
            None => e.id,
        }
    }

    /// The graph with one more artifact.
    pub open spec fn with_entity(self, e: EntityView) -> GraphModel {
        self.inserted(e).resolved()
    }

    /// The graph with more artifacts, added one after the other.
    pub open spec fn with_entities(self, es: Seq<EntityView>) -> GraphModel
        decreases es.len(),
    {
        if es.len() == 0 {
            self
        } else {
            self.with_entities(es.drop_last()).with_entity(es.last())
        }
    }

    /// Whether nodes and edges can all be numbered: an index has 32 bits, and
    /// its greatest value stands for no index.
    pub open spec fn fits(self) -> bool {
        self.nodes.len() <= u32::MAX && self.edges.len() <= u32::MAX
    }

    /// The links out of an entity, the latest first.
    pub open spec fn links_of(self, id: u128) -> Seq<(RelationKindView, EntityView)> {
        match node_of(self.nodes, id) {
            None => Seq::empty(),
            Some(i) => outgoing(self.edges, i).map_values(
                |e: EdgeView| (e.kind, self.nodes[e.target]),
            ),
        }
    }

    /// The edges by the ids of their ends.
    pub open spec fn links(self) -> Seq<LinkView> {
        self.edges.map_values(
            |e: EdgeView|
                LinkView {
                    source: self.nodes[e.source].id,
                    target: self.nodes[e.target].id,
                    kind: e.kind,
                },
        )
    }

    /// No artifact stands twice, every edge joins two nodes, and a relation
    /// waits only for an entity that is not there.
    pub open spec fn well_formed(self) -> bool {
        &&& forall|i: int, j: int|
            0 <= i < j < self.nodes.len() ==> (#[trigger] self.nodes[i]).entity_type != (
            #[trigger] self.nodes[j]).entity_type || self.nodes[i].value != self.nodes[j].value
        &&& forall|i: int|
            0 <= i < self.edges.len() ==> 0 <= (#[trigger] self.edges[i]).source < self.nodes.len()
                && 0 <= self.edges[i].target < self.nodes.len()
        &&& forall|i: int|
            0 <= i < self.pending.len() ==> node_of(
                self.nodes,
                (#[trigger] self.pending[i]).source,
            ) is Some && node_of(self.nodes, self.pending[i].target) is None
    }
}

/// The graph without anything in it.
pub open spec fn empty_graph() -> GraphModel {
    GraphModel { nodes: Seq::empty(), edges: Seq::empty(), pending: Seq::empty() }
}

/// The edges out of a node, the latest first.
pub open spec fn outgoing(edges: Seq<EdgeView>, i: int) -> Seq<EdgeView> {
    edges.filter(|e: EdgeView| e.source == i).reverse()
}

pub proof fn lemma_node_of(nodes: Seq<EntityView>, id: u128)
    ensures
        match node_of(nodes, id) {
            Some(i) => 0 <= i < nodes.len() && nodes[i].id == id,
            None => forall|i: int| 0 <= i < nodes.len() ==> (#[trigger] nodes[i]).id != id,
        },
    decreases nodes.len(),
{
    if nodes.len() > 0 && nodes.last().id != id {
        lemma_node_of(nodes.drop_last(), id);
        if node_of(nodes, id) is None {
            assert forall|i: int| 0 <= i < nodes.len() implies (#[trigger] nodes[i]).id != id by {
                if i < nodes.len() - 1 {
                    assert(nodes.drop_last()[i] == nodes[i]);
                }
            }
        }
    }
}

pub proof fn lemma_place_of(nodes: Seq<EntityView>, entity_type: EntityType, value: Seq<char>)
    ensures
        match place_of(nodes, entity_type, value) {
            Some(i) => 0 <= i < nodes.len() && nodes[i].entity_type == entity_type
                && nodes[i].value == value,
            None => forall|i: int|
                0 <= i < nodes.len() ==> (#[trigger] nodes[i]).entity_type != entity_type
                    || nodes[i].value != value,
        },
    decreases nodes.len(),
{
    if nodes.len() > 0 && !(nodes.last().entity_type == entity_type && nodes.last().value
        == value) {
        lemma_place_of(nodes.drop_last(), entity_type, value);
        if place_of(nodes, entity_type, value) is None {
            assert forall|i: int| 0 <= i < nodes.len() implies (#[trigger] nodes[i]).entity_type
                != entity_type || nodes[i].value != value by {
                if i < nodes.len() - 1 {
                    assert(nodes.drop_last()[i] == nodes[i]);
                }
            }
        }
    }
}

/// Nodes are found by what a refresh does not change.
pub proof fn lemma_found_alike(
    a: Seq<EntityView>,
    b: Seq<EntityView>,
    id: u128,
    entity_type: EntityType,
    value: Seq<char>,
)
    requires
        a.len() == b.len(),
        forall|i: int|
            0 <= i < a.len() ==> (#[trigger] a[i]).id == b[i].id && a[i].entity_type
                == b[i].entity_type && a[i].value == b[i].value,
    ensures
        node_of(a, id) == node_of(b, id),
        place_of(a, entity_type, value) == place_of(b, entity_type, value),
    decreases a.len(),
{
    if a.len() > 0 {
        assert(a[a.len() - 1].id == b[b.len() - 1].id);
        lemma_found_alike(a.drop_last(), b.drop_last(), id, entity_type, value);
    }
}

pub proof fn lemma_found_after_push(
    nodes: Seq<EntityView>,
    e: EntityView,
    id: u128,
    entity_type: EntityType,
    value: Seq<char>,
)
    ensures
        node_of(nodes.push(e), id) == if e.id == id {
            Some(nodes.len() as int)
        } else {
            node_of(nodes, id)
        },
        place_of(nodes.push(e), entity_type, value) == if e.entity_type == entity_type && e.value
            == value {
            Some(nodes.len() as int)
        } else {
            place_of(nodes, entity_type, value)
        },
{
    assert(nodes.push(e).drop_last() == nodes);
}

/// What is known by its id stays known.
pub proof fn lemma_insert_keeps_ids(m: GraphModel, e: EntityView, id: u128)
    ensures
        node_of(m.nodes, id) is Some ==> node_of(m.inserted(e).nodes, id) is Some,
        node_of(m.inserted(e).nodes, m.kept_id(e)) is Some,
{
    lemma_place_of(m.nodes, e.entity_type, e.value);
    match place_of(m.nodes, e.entity_type, e.value) {
        Some(i) => {
            let after = m.inserted(e).nodes;
            lemma_found_alike(m.nodes, after, id, e.entity_type, e.value);
            lemma_found_alike(m.nodes, after, m.nodes[i].id, e.entity_type, e.value);
            lemma_node_of(m.nodes, m.nodes[i].id);
        },
        None => {
            lemma_found_after_push(m.nodes, e, id, e.entity_type, e.value);
            lemma_found_after_push(m.nodes, e, e.id, e.entity_type, e.value);
        },
    }
}

proof fn lemma_resolve_edges(m: GraphModel, i: int)
    requires
        m.edges.len() <= i < m.resolved().edges.len(),
    ensures
        0 <= m.resolved().edges[i].source < m.nodes.len(),
        0 <= m.resolved().edges[i].target < m.nodes.len(),
{
    let known = |l: LinkView| m.knows(l);
    let drawn = m.pending.filter(known);
    m.pending.lemma_filter_pred(known, i - m.edges.len());
    let l = drawn[i - m.edges.len()];
    assert(m.resolved().edges[i] == m.edge(l));
    lemma_node_of(m.nodes, l.source);
    lemma_node_of(m.nodes, l.target);
}

proof fn lemma_resolve_pending(m: GraphModel, i: int)
    requires
        0 <= i < m.resolved().pending.len(),
    ensures
        m.pending.contains(m.resolved().pending[i]),
        !m.knows(m.resolved().pending[i]),
{
    let unknown = |l: LinkView| !m.knows(l);
    m.pending.lemma_filter_pred(unknown, i);
    m.pending.lemma_filter_contains_rev(unknown, m.pending.filter(unknown)[i]);
}

/// Adding an artifact keeps a graph well formed: above all, no two nodes have
/// both the same kind and the same value.
pub proof fn law_adding_keeps_the_graph_well_formed(m: GraphModel, e: EntityView)
    requires
        m.well_formed(),
    ensures
        m.with_entity(e).well_formed(),
{
    let mid = m.inserted(e);
    let end = m.with_entity(e);
    lemma_place_of(m.nodes, e.entity_type, e.value);
    assert forall|i: int, j: int| 0 <= i < j < end.nodes.len() implies (
    #[trigger] end.nodes[i]).entity_type != (#[trigger] end.nodes[j]).entity_type
        || end.nodes[i].value != end.nodes[j].value by {
        if j < m.nodes.len() {
            assert(m.nodes[i].entity_type != m.nodes[j].entity_type || m.nodes[i].value
                != m.nodes[j].value);
        }
    }
    assert forall|i: int| 0 <= i < end.edges.len() implies 0 <= (
    #[trigger] end.edges[i]).source < end.nodes.len() && 0 <= end.edges[i].target
        < end.nodes.len() by {
        if i < m.edges.len() {
            assert(end.edges[i] == m.edges[i]);
        } else {
            lemma_resolve_edges(mid, i);
        }
    }
    assert forall|i: int| 0 <= i < end.pending.len() implies node_of(
        end.nodes,
        (#[trigger] end.pending[i]).source,
    ) is Some && node_of(end.nodes, end.pending[i].target) is None by {
        lemma_resolve_pending(mid, i);
        let l = end.pending[i];
        let k = choose|k: int| 0 <= k < mid.pending.len() && mid.pending[k] == l;
        lemma_insert_keeps_ids(m, e, l.source);
        if k < m.pending.len() {
            assert(m.pending[k] == l);
        } else {
            assert(l.source == m.kept_id(e));
        }
    }
}

/// An artifact that was added is there, under the id that adding it gave.
pub proof fn law_added_entity_is_found(m: GraphModel, e: EntityView)
    ensures
        place_of(m.with_entity(e).nodes, e.entity_type, e.value) matches Some(i) && m.with_entity(
            e,
        ).nodes[i].id == m.kept_id(e),
        node_of(m.with_entity(e).nodes, m.kept_id(e)) is Some,
{
    lemma_place_of(m.nodes, e.entity_type, e.value);
    lemma_insert_keeps_ids(m, e, e.id);
    match place_of(m.nodes, e.entity_type, e.value) {
        Some(i) => {
            lemma_found_alike(m.nodes, m.inserted(e).nodes, e.id, e.entity_type, e.value);
        },
        None => {
            lemma_found_after_push(m.nodes, e, e.id, e.entity_type, e.value);
        },
    }
}

/// Nothing that is in the graph moves, and it keeps its id, its kind, its
/// value, its own relations and the source that discovered it first.
pub proof fn law_first_discoverer_is_kept(m: GraphModel, e: EntityView, i: int)
    requires
        0 <= i < m.nodes.len(),
    ensures
        m.with_entity(e).nodes.len() >= m.nodes.len(),
        m.with_entity(e).nodes[i].id == m.nodes[i].id,
        m.with_entity(e).nodes[i].entity_type == m.nodes[i].entity_type,
        m.with_entity(e).nodes[i].value == m.nodes[i].value,
        m.with_entity(e).nodes[i].source == m.nodes[i].source,
        m.with_entity(e).nodes[i].relations == m.nodes[i].relations,
{
    lemma_place_of(m.nodes, e.entity_type, e.value);
}

/// Confidence in a node never goes down.
pub proof fn law_confidence_never_drops(m: GraphModel, e: EntityView, i: int)
    requires
        0 <= i < m.nodes.len(),
    ensures
        !m.nodes[i].confidence.exceeds_spec(m.with_entity(e).nodes[i].confidence),
{
    lemma_place_of(m.nodes, e.entity_type, e.value);
}

/// One plugin's enrichment never overwrites another's: a member that was
/// gathered about a node keeps its value, whatever members are seen later.
pub proof fn law_detail_is_never_lost(m: GraphModel, e: EntityView, i: int, key: Seq<char>)
    requires
        0 <= i < m.nodes.len(),
        m.nodes[i].metadata.member(key) is Some,
        e.metadata is Object || e.metadata is Null,
    ensures
        m.with_entity(e).nodes[i].metadata.member(key) == m.nodes[i].metadata.member(key),
{
    lemma_place_of(m.nodes, e.entity_type, e.value);
}

/// What was gathered about a node also outlives any number of later entities.
pub proof fn law_detail_outlives_batches(
    m: GraphModel,
    es: Seq<EntityView>,
    i: int,
    key: Seq<char>,
)
    requires
        0 <= i < m.nodes.len(),
        m.nodes[i].metadata.member(key) is Some,
        forall|k: int|
            0 <= k < es.len() ==> (#[trigger] es[k]).metadata is Object || es[k].metadata is Null,
    ensures
        i < m.with_entities(es).nodes.len(),
        m.with_entities(es).nodes[i].metadata.member(key) == m.nodes[i].metadata.member(key),
    decreases es.len(),
{
    if es.len() > 0 {
        let front = es.drop_last();
        let last = es[es.len() - 1];
        assert forall|k: int| 0 <= k < front.len() implies (#[trigger] front[k]).metadata is Object
            || front[k].metadata is Null by {
            assert(front[k] == es[k]);
        }
        law_detail_outlives_batches(m, front, i, key);
        let near = m.with_entities(front);
        law_detail_is_never_lost(near, last, i, key);
        law_first_discoverer_is_kept(near, last, i);
    }
}

/// A node gains the detail of a later discovery that it did not have yet.
pub proof fn law_new_detail_is_gained(m: GraphModel, e: EntityView, key: Seq<char>)
    requires
        place_of(m.nodes, e.entity_type, e.value) is Some,
        m.nodes[place_of(m.nodes, e.entity_type, e.value)->0].metadata.member(key) is None,
        e.metadata is Object,
    ensures
        m.with_entity(e).nodes[place_of(
            m.nodes,
            e.entity_type,
            e.value,
        )->0].metadata.member(key) == e.metadata.member(key),
{
    lemma_place_of(m.nodes, e.entity_type, e.value);
}

/// Seeing an artifact again adds no node.
pub proof fn law_seen_again_adds_no_node(m: GraphModel, e: EntityView, again: EntityView)
    requires
        again.entity_type == e.entity_type,
        again.value == e.value,
    ensures
        m.with_entity(e).with_entity(again).nodes.len() == m.with_entity(e).nodes.len(),
        m.with_entity(e).kept_id(again) == m.kept_id(e),
{
    law_added_entity_is_found(m, e);
    lemma_place_of(m.with_entity(e).nodes, e.entity_type, e.value);
}

proof fn lemma_filter_splits<T>(s: Seq<T>, p: spec_fn(T) -> bool)
    ensures
        s.filter(p).len() + s.filter(|x: T| !p(x)).len() == s.len(),
    decreases s.len(),
{
    reveal(Seq::filter);
    if s.len() > 0 {
        lemma_filter_splits(s.drop_last(), p);
    }
}

/// Edges stay as they are, and every relation that is handed in is either
/// drawn as an edge or waits.
pub proof fn law_no_relation_is_lost(m: GraphModel, e: EntityView)
    ensures
        m.edges.is_prefix_of(m.with_entity(e).edges),
        m.with_entity(e).edges.len() + m.with_entity(e).pending.len() == m.edges.len()
            + m.pending.len() + e.relations.len(),
{
    let mid = m.inserted(e);
    let known = |l: LinkView| mid.knows(l);
    lemma_filter_splits(mid.pending, known);
    assert((|l: LinkView| !mid.knows(l)) =~= (|l: LinkView| !known(l)));
    assert(m.with_entity(e).edges.take(m.edges.len() as int) == m.edges);
}

/// A relation that waits for an entity is drawn as soon as that entity is
/// added, and so is a new relation between known entities.
pub proof fn law_waiting_relation_is_drawn(m: GraphModel, e: EntityView, link: LinkView)
    requires
        m.inserted(e).pending.contains(link),
        m.inserted(e).knows(link),
    ensures
        m.with_entity(e).edges.contains(m.with_entity(e).edge(link)),
{
    let mid = m.inserted(e);
    let known = |l: LinkView| mid.knows(l);
    mid.pending.lemma_filter_contains(known, mid.pending.index_of(link));
    let drawn = mid.pending.filter(known);
    let k = choose|k: int| 0 <= k < drawn.len() && drawn[k] == link;
    assert(m.with_entity(e).edges[m.edges.len() + k] == mid.edge(link));
}

/// A known artifact that is handed in again with new relations adds no node:
/// its relations to known entities are drawn from the node that is there.
pub proof fn law_relations_of_a_known_entity_are_drawn(m: GraphModel, e: EntityView, k: int)
    requires
        place_of(m.nodes, e.entity_type, e.value) is Some,
        0 <= k < e.relations.len(),
        node_of(m.nodes, e.relations[k].target) is Some,
    ensures
        m.with_entity(e).nodes.len() == m.nodes.len(),
        m.with_entity(e).edges.contains(
            EdgeView {
                source: node_of(m.nodes, m.kept_id(e))->0,
                target: node_of(m.nodes, e.relations[k].target)->0,
                kind: e.relations[k].kind,
            },
        ),
{
    let i = place_of(m.nodes, e.entity_type, e.value)->0;
    let mid = m.inserted(e);
    let target = e.relations[k].target;
    let link = LinkView { source: m.kept_id(e), target, kind: e.relations[k].kind };
    lemma_place_of(m.nodes, e.entity_type, e.value);
    lemma_node_of(m.nodes, m.kept_id(e));
    lemma_found_alike(m.nodes, mid.nodes, m.kept_id(e), e.entity_type, e.value);
    lemma_found_alike(m.nodes, mid.nodes, target, e.entity_type, e.value);
    assert(mid.pending[m.pending.len() + k] == link);
    law_waiting_relation_is_drawn(m, e, link);
}

pub proof fn lemma_filter_of_prefix<T>(s: Seq<T>, p: spec_fn(T) -> bool, n: int)
    requires
        0 <= n <= s.len(),
    ensures
        s.take(n).filter(p).len() <= s.filter(p).len(),
    decreases s.len(),
{
    reveal(Seq::filter);
    if n == s.len() {
        assert(s.take(n) == s);
    } else {
        lemma_filter_of_prefix(s.drop_last(), p, n);
        assert(s.drop_last().take(n) == s.take(n));
    }
}

/// A graph only grows.
pub proof fn lemma_graph_grows(m: GraphModel, es: Seq<EntityView>, n: int)
    requires
        0 <= n <= es.len(),
    ensures
        m.with_entities(es.take(n)).nodes.len() <= m.with_entities(es).nodes.len(),
        m.with_entities(es.take(n)).edges.len() <= m.with_entities(es).edges.len(),
    decreases es.len(),
{
    if n == es.len() {
        assert(es.take(n) == es);
    } else {
        lemma_graph_grows(m, es.drop_last(), n);
        assert(es.drop_last().take(n) == es.take(n));
        let near = m.with_entities(es.drop_last());
        law_no_relation_is_lost(near, es.last());
        lemma_place_of(near.nodes, es.last().entity_type, es.last().value);
    }
}

/// Adding artifacts one batch after the other is adding them all.
pub proof fn law_batches_add_up(m: GraphModel, a: Seq<EntityView>, b: Seq<EntityView>)
    ensures
        m.with_entities(a + b) == m.with_entities(a).with_entities(b),
    decreases b.len(),
{
    if b.len() == 0 {
        assert(a + b == a);
    } else {
        assert((a + b).drop_last() == a + b.drop_last());
        law_batches_add_up(m, a, b.drop_last());
    }
}

} // verus!
