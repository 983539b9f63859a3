//! The unified recon result.
use std::collections::HashMap;
use vstd::hash_map::StringHashMap;
use vstd::prelude::*;

use crate::entity::{
    entity_views, relation_views, Entity, EntityType, EntityView, Relation, RelationKind,
};
use crate::graph_model::{
    empty_graph, law_adding_keeps_the_graph_well_formed, law_no_relation_is_lost,
    lemma_filter_of_prefix, lemma_found_after_push, lemma_found_alike, lemma_graph_grows,
    lemma_node_of, lemma_place_of, links_from, node_of, of_type, outgoing, place_of, EdgeView,
    GraphModel, LinkView,
};
use crate::store::{
    add_edge, add_node, all_edges, edge_count, edges_from, new_store, node, node_count, node_mut,
    node_weights, store_grown, store_edges, store_nodes, Store,
};

verus! {

/// A relation whose target is not in the graph yet.
struct PendingEdge {
    source: u128,
    target: u128,
    kind: RelationKind,
}

impl View for PendingEdge {
    type V = LinkView;

    closed spec fn view(&self) -> LinkView {
        LinkView { source: self.source, target: self.target, kind: self.kind@ }
    }
}

spec fn pending_views(v: Seq<PendingEdge>) -> Seq<LinkView> {
    v.map_values(|p: PendingEdge| p@)
}

/// The unified recon result: every entity discovered across all pipeline
/// stages, linked by typed relations, stored as a graph internally.
///
/// Nodes are deduplicated by kind and value so that, for example, a subdomain
/// rediscovered by two different plugins collapses into a single node instead
/// of appearing twice in the graph. `source` is kept as whichever plugin
/// discovered the entity first, and `metadata` is merged key by key across
/// every plugin that later touches the same entity, so one plugin's enrichment
/// never silently overwrites another's.
pub struct EntityGraph {
    graph: Store,
    index: HashMap<u128, usize>,
    /// Node indices by `dedup_key`.
    dedup_index: StringHashMap<usize>,
    /// Relations whose target hadn't been inserted yet at the time the source
    /// entity was added; retried every time a new entity is added.
    pending_edges: Vec<PendingEdge>,
}

impl View for EntityGraph {
    type V = GraphModel;

    closed spec fn view(&self) -> GraphModel {
        GraphModel {
            nodes: store_nodes(self.graph),
            edges: store_edges(self.graph),
            pending: pending_views(self.pending_edges@),
        }
    }
}

impl Default for EntityGraph {
    fn default() -> (r: Self)
        ensures
            r.wf(),
            r@ == empty_graph(),
    {
        Self::new()
    }
}

spec fn tag(entity_type: EntityType) -> char {
    match entity_type {
        EntityType::Domain => 'a',
        EntityType::Subdomain => 'b',
        EntityType::IpAddress => 'c',
        EntityType::Port => 'd',
        EntityType::Service => 'e',
        EntityType::Technology => 'f',
        EntityType::Url => 'g',
        EntityType::Endpoint => 'h',
        EntityType::Certificate => 'i',
        EntityType::EmailAddress => 'j',
        EntityType::Asn => 'k',
        EntityType::Cidr => 'l',
        EntityType::Vulnerability => 'm',
        EntityType::Screenshot => 'n',
    }
}

fn tag_char(entity_type: EntityType) -> (r: char)
    ensures
        r == tag(entity_type),
{
    match entity_type {
        EntityType::Domain => 'a',
        EntityType::Subdomain => 'b',
        EntityType::IpAddress => 'c',
        EntityType::Port => 'd',
        EntityType::Service => 'e',
        EntityType::Technology => 'f',
        EntityType::Url => 'g',
        EntityType::Endpoint => 'h',
        EntityType::Certificate => 'i',
        EntityType::EmailAddress => 'j',
        EntityType::Asn => 'k',
        EntityType::Cidr => 'l',
        EntityType::Vulnerability => 'm',
        EntityType::Screenshot => 'n',
    }
}

/// The key of an artifact: its kind as one character, then its value.
spec fn key_text(entity_type: EntityType, value: Seq<char>) -> Seq<char> {
    seq![tag(entity_type)] + value
}

fn dedup_key(entity_type: EntityType, value: &str) -> (r: String)
    ensures
        r@ == key_text(entity_type, value@),
{
    let mut r = String::new();
    r.push(tag_char(entity_type));
    r.append(value);
    assert(r@ == key_text(entity_type, value@));
    r
}

proof fn lemma_keys_differ(t: EntityType, v: Seq<char>, u: EntityType, w: Seq<char>)
    requires
        key_text(t, v) == key_text(u, w),
    ensures
        t == u,
        v == w,
{
    assert(key_text(t, v)[0] == tag(t));
    assert(key_text(u, w)[0] == tag(u));
    assert(key_text(t, v).skip(1) == v);
    assert(key_text(u, w).skip(1) == w);
}

/// Both indices say where the nodes are.
spec fn indexed(
    nodes: Seq<EntityView>,
    index: Map<u128, usize>,
    dedup: Map<Seq<char>, usize>,
) -> bool {
    &&& forall|id: u128|
        #![trigger node_of(nodes, id)]
        #![trigger index.contains_key(id)]
        match node_of(nodes, id) {
            Some(i) => index.contains_key(id) && index[id] as int == i,
            None => !index.contains_key(id),
        }
    &&& forall|t: EntityType, v: Seq<char>|
        #![trigger place_of(nodes, t, v)]
        #![trigger dedup.contains_key(key_text(t, v))]
        match place_of(nodes, t, v) {
            Some(i) => dedup.contains_key(key_text(t, v)) && dedup[key_text(t, v)] as int == i,
            None => !dedup.contains_key(key_text(t, v)),
        }
}

impl EntityGraph {
    /// The graph is well formed and its indices agree with its nodes.
    pub closed spec fn wf(&self) -> bool {
        &&& self@.well_formed()
        &&& self.consistent()
    }

    spec fn consistent(&self) -> bool {
        &&& store_grown(self.graph)
        &&& indexed(store_nodes(self.graph), self.index@, self.dedup_index@)
    }

    /// In every graph that these functions made no artifact stands twice, every
    /// edge joins two nodes, and a relation waits only for an entity that is
    /// not there.
    pub proof fn law_every_graph_is_well_formed(&self)
        requires
            self.wf(),
        ensures
            self@.well_formed(),
    {
    }

    pub fn new() -> (r: Self)
        ensures
            r.wf(),
            r@ == empty_graph(),
    {
        broadcast use vstd::std_specs::hash::group_hash_axioms;

        let r = EntityGraph {
            graph: new_store(),
            index: HashMap::new(),
            dedup_index: StringHashMap::new(),
            pending_edges: Vec::new(),
        };
        assert(pending_views(r.pending_edges@) == Seq::<LinkView>::empty());
        r
    }

    /// Whether there is certainly room for more entities: their relations and
    /// those that wait are counted as if each became an edge.
    pub fn has_room_for(&self, entities: &Vec<Entity>) -> (r: bool)
        requires
            self.wf(),
        ensures
            r == (self@.nodes.len() + entities@.len() <= u32::MAX && self@.edges.len()
                + self@.pending.len() + relation_count(entity_views(entities@)) <= u32::MAX),
            r ==> self@.with_entities(entity_views(entities@)).fits(),
    {
        let ghost all = entity_views(entities@);
        let mut relations: u128 = 0;
        let mut i: usize = 0;
        while i < entities.len()
            invariant
                i <= entities.len(),
                all == entity_views(entities@),
                relations == relation_count(all.take(i as int)),
                relations <= i * usize::MAX,
            decreases entities.len() - i,
        {
            proof {
                assert(all.take(i + 1).drop_last() == all.take(i as int));
                assert(all[i as int].relations.len() == entities@[i as int].relations@.len());
                assert(i * usize::MAX + usize::MAX == (i + 1) * usize::MAX) by (nonlinear_arith);
                assert((i + 1) * usize::MAX <= usize::MAX * usize::MAX) by (nonlinear_arith)
                    requires
                        i + 1 <= usize::MAX,
                ;
                assert(usize::MAX * usize::MAX <= u128::MAX) by (nonlinear_arith)
                    requires
                        usize::MAX <= 0xffff_ffff_ffff_ffff,
                ;
            }
            relations = relations + entities[i].relations.len() as u128;
            i += 1;
        }
        assert(all.take(i as int) == all);
        proof {
            lemma_growth_bound(self@, all);
        }
        let nodes: usize = node_count(&self.graph);
        let edges: usize = edge_count(&self.graph);
        let waiting: usize = self.pending_edges.len();
        let limit: u128 = 0xffff_ffff;
        nodes as u128 + entities.len() as u128 <= limit && relations <= limit && edges as u128
            + waiting as u128 + relations <= limit
    }

    /// Insert a single entity, merging into an existing node of the same kind
    /// and value if one is already present. Returns the id of the resulting
    /// node (which may differ from `entity.id` when merged).
    pub fn add_entity(&mut self, entity: Entity) -> (r: u128)
        requires
            old(self).wf(),
            old(self)@.with_entity(entity@).fits(),
        ensures
            final(self).wf(),
            final(self)@ == old(self)@.with_entity(entity@),
            r == old(self)@.kept_id(entity@),
    {
        broadcast use vstd::std_specs::hash::group_hash_axioms;

        let ghost before = self@;
        let ghost e = entity@;
        let key = dedup_key(entity.entity_type, entity.value.as_str());
        let mut links: Vec<Relation> = Vec::new();
        let mut i: usize = 0;
        while i < entity.relations.len()
            invariant
                i <= entity.relations.len(),
                links@.len() == i,
                forall|k: int| 0 <= k < i ==> (#[trigger] links@[k])@ == entity.relations@[k]@,
            decreases entity.relations.len() - i,
        {
            links.push(entity.relations[i].clone());
            i += 1;
        }
        assert(relation_views(links@) == e.relations);

        proof {
            lemma_place_of(before.nodes, e.entity_type, e.value);
        }
        let found = match self.dedup_index.get(key.as_str()) {
            Some(at) => Some(*at),
            None => None,
        };
        let final_id: u128 = match found {
            Some(at) => {
                let existing = node_mut(&mut self.graph, at);
                let id: u128 = existing.id;
                if entity.confidence.exceeds(existing.confidence) {
                    existing.confidence = entity.confidence;
                }
                existing.timestamp = entity.timestamp;
                existing.metadata.merge(&entity.metadata);
                proof {
                    let after = store_nodes(self.graph);
                    assert(after == before.inserted(e).nodes);
                    assert forall|id: u128| node_of(after, id) == node_of(before.nodes, id) by {
                        lemma_found_alike(before.nodes, after, id, e.entity_type, e.value);
                    }
                    assert forall|t: EntityType, v: Seq<char>|
                        place_of(after, t, v) == place_of(before.nodes, t, v) by {
                        lemma_found_alike(before.nodes, after, e.id, t, v);
                    }
                }
                id
            },
            None => {
                let id: u128 = entity.id;
                let at: usize = add_node(&mut self.graph, entity);
                let ghost index_before = self.index@;
                let ghost dedup_before = self.dedup_index@;
                self.index.insert(id, at);
                self.dedup_index.insert(key, at);
                proof {
                    let after = store_nodes(self.graph);
                    assert(after == before.inserted(e).nodes);
                    assert forall|id: u128|
                        #![trigger node_of(after, id)]
                        #![trigger self.index@.contains_key(id)]
                        match node_of(after, id) {
                            Some(i) => self.index@.contains_key(id) && self.index@[id] as int == i,
                            None => !self.index@.contains_key(id),
                        } by {
                        lemma_found_after_push(before.nodes, e, id, e.entity_type, e.value);
                        assert(index_before.contains_key(id) == (node_of(before.nodes, id) is Some));
                    }
                    assert forall|t: EntityType, v: Seq<char>|
                        #![trigger place_of(after, t, v)]
                        #![trigger self.dedup_index@.contains_key(key_text(t, v))]
                        match place_of(after, t, v) {
                            Some(i) => self.dedup_index@.contains_key(key_text(t, v))
                                && self.dedup_index@[key_text(t, v)] as int == i,
                            None => !self.dedup_index@.contains_key(key_text(t, v)),
                        } by {
                        lemma_found_after_push(before.nodes, e, e.id, t, v);
                        if key_text(t, v) == key_text(e.entity_type, e.value) {
                            lemma_keys_differ(t, v, e.entity_type, e.value);
                        }
                        assert(dedup_before.contains_key(key_text(t, v)) == (place_of(
                            before.nodes,
                            t,
                            v,
                        ) is Some));
                    }
                }
                id
            },
        };

        self.queue(final_id, &links);
        assert(self@ == before.inserted(e));
        proof {
            law_adding_keeps_the_graph_well_formed(before, e);
        }
        self.resolve_pending_edges();
        final_id
    }

    /// Puts the relations of an entity on the list of those that wait.
    fn queue(&mut self, id: u128, links: &Vec<Relation>)
        ensures
            final(self).graph == old(self).graph,
            final(self).index == old(self).index,
            final(self).dedup_index == old(self).dedup_index,
            pending_views(final(self).pending_edges@) == pending_views(old(self).pending_edges@)
                + links_from(id, relation_views(links@)),
    {
        let ghost before = pending_views(self.pending_edges@);
        let ghost all = links_from(id, relation_views(links@));
        let mut i: usize = 0;
        assert(before + all.take(0) == before);
        while i < links.len()
            invariant
                i <= links.len(),
                self.graph == old(self).graph,
                self.index == old(self).index,
                self.dedup_index == old(self).dedup_index,
                all == links_from(id, relation_views(links@)),
                pending_views(self.pending_edges@) == before + all.take(i as int),
            decreases links.len() - i,
        {
            let ghost so_far = self.pending_edges@;
            let p = PendingEdge {
                source: id,
                target: links[i].target,
                kind: links[i].kind.clone(),
            };
            self.pending_edges.push(p);
            proof {
                assert(p@ == all[i as int]);
                assert(pending_views(self.pending_edges@) == pending_views(so_far).push(p@));
                assert(all.take(i + 1) == all.take(i as int).push(all[i as int]));
                assert(before + all.take(i + 1) == (before + all.take(i as int)).push(
                    all[i as int],
                ));
            }
            i += 1;
        }
        assert(all.take(i as int) == all);
    }

    pub fn add_entities(&mut self, entities: Vec<Entity>)
        requires
            old(self).wf(),
            old(self)@.with_entities(entity_views(entities@)).fits(),
        ensures
            final(self).wf(),
            final(self)@ == old(self)@.with_entities(entity_views(entities@)),
    {
        let ghost all = entity_views(entities@);
        let ghost before = self@;
        let mut i: usize = 0;
        while i < entities.len()
            invariant
                i <= entities.len(),
                all == entity_views(entities@),
                self.wf(),
                self@ == before.with_entities(all.take(i as int)),
                before.with_entities(all).fits(),
            decreases entities.len() - i,
        {
            let e = entities[i].clone();
            proof {
                assert(all.take(i + 1).drop_last() == all.take(i as int));
                assert(e@ == all[i as int]);
                lemma_graph_grows(before, all, i + 1);
            }
            self.add_entity(e);
            i += 1;
        }
        assert(all.take(i as int) == all);
    }

    /// Draws every waiting relation with known ends.
    fn resolve_pending_edges(&mut self)
        requires
            old(self).consistent(),
            old(self)@.resolved().well_formed(),
            old(self)@.resolved().fits(),
        ensures
            final(self).wf(),
            final(self)@ == old(self)@.resolved(),
    {
        broadcast use vstd::std_specs::hash::group_hash_axioms;

        let ghost m = self@;
        let ghost known = |l: LinkView| m.knows(l);
        let ghost unknown = |l: LinkView| !m.knows(l);
        let ghost draw = |l: LinkView| m.edge(l);
        let mut still_pending: Vec<PendingEdge> = Vec::new();
        let mut i: usize = 0;
        proof {
            reveal(Seq::filter);
            assert(m.edges + m.pending.take(0).filter(known).map_values(draw) == m.edges);
        }
        while i < self.pending_edges.len()
            invariant
                i <= self.pending_edges.len(),
                self.consistent(),
                self.pending_edges == old(self).pending_edges,
                pending_views(self.pending_edges@) == m.pending,
                store_nodes(self.graph) == m.nodes,
                self.index == old(self).index,
                self.dedup_index == old(self).dedup_index,
                known == (|l: LinkView| m.knows(l)),
                unknown == (|l: LinkView| !m.knows(l)),
                draw == (|l: LinkView| m.edge(l)),
                m.resolved().fits(),
                store_edges(self.graph) == m.edges + m.pending.take(i as int).filter(
                    known,
                ).map_values(draw),
                pending_views(still_pending@) == m.pending.take(i as int).filter(unknown),
            decreases self.pending_edges.len() - i,
        {
            let p = &self.pending_edges[i];
            let ghost link = p@;
            let ghost drawn = m.pending.take(i as int).filter(known);
            let ghost kept = still_pending@;
            proof {
                assert(link == m.pending[i as int]);
                reveal(Seq::filter);
                assert(m.pending.take(i + 1).drop_last() == m.pending.take(i as int));
                assert(m.pending.take(i + 1).last() == link);
                lemma_node_of(m.nodes, link.source);
                lemma_node_of(m.nodes, link.target);
                lemma_filter_of_prefix(m.pending, known, i + 1);
            }
            let ends = match (self.index.get(&p.source), self.index.get(&p.target)) {
                (Some(s), Some(t)) => Some((*s, *t)),
                _ => None,
            };
            match ends {
                Some((s, t)) => {
                    let kind = p.kind.clone();
                    add_edge(&mut self.graph, s, t, kind);
                    assert(known(link));
                    assert(drawn.push(link).map_values(draw) == drawn.map_values(draw).push(
                        m.edge(link),
                    ));
                    assert(store_edges(self.graph) == m.edges + drawn.push(link).map_values(draw));
                },
                None => {
                    let again = PendingEdge {
                        source: p.source,
                        target: p.target,
                        kind: p.kind.clone(),
                    };
                    still_pending.push(again);
                    assert(unknown(link));
                    assert(pending_views(still_pending@) == pending_views(kept).push(link));
                },
            }
            i += 1;
        }
        assert(m.pending.take(i as int) == m.pending);
        self.pending_edges = still_pending;
        assert(self@ == m.resolved());
    }

    pub fn get(&self, id: u128) -> (r: Option<&Entity>)
        requires
            self.wf(),
        ensures
            match r {
                Some(e) => node_of(self@.nodes, id) matches Some(i) && e@ == self@.nodes[i],
                None => node_of(self@.nodes, id) is None,
            },
    {
        broadcast use vstd::std_specs::hash::group_hash_axioms;

        proof {
            lemma_node_of(self@.nodes, id);
        }
        match self.index.get(&id) {
            Some(at) => Some(node(&self.graph, *at)),
            None => None,
        }
    }

    pub fn len(&self) -> (r: usize)
        ensures
            r == self@.nodes.len(),
    {
        node_count(&self.graph)
    }

    pub fn is_empty(&self) -> (r: bool)
        ensures
            r == (self@.nodes.len() == 0),
    {
        node_count(&self.graph) == 0
    }

    /// Every entity, in the order in which they were first seen.
    pub fn entities(&self) -> (r: Vec<&Entity>)
        ensures
            entity_ref_views(r@) == self@.nodes,
    {
        node_weights(&self.graph)
    }

    pub fn entities_by_type(&self, entity_type: EntityType) -> (r: Vec<&Entity>)
        ensures
            entity_ref_views(r@) == of_type(self@.nodes, entity_type),
    {
        let all = node_weights(&self.graph);
        let ghost views = entity_ref_views(all@);
        let ghost p = |e: EntityView| e.entity_type == entity_type;
        let mut r: Vec<&Entity> = Vec::new();
        let mut i: usize = 0;
        proof {
            reveal(Seq::filter);
        }
        while i < all.len()
            invariant
                i <= all.len(),
                views == entity_ref_views(all@),
                p == (|e: EntityView| e.entity_type == entity_type),
                entity_ref_views(r@) == views.take(i as int).filter(p),
            decreases all.len() - i,
        {
            let ghost before = r@;
            let e = all[i];
            proof {
                reveal(Seq::filter);
                assert(views.take(i + 1).drop_last() == views.take(i as int));
                assert(views.take(i + 1).last() == e@);
            }
            if e.entity_type == entity_type {
                r.push(e);
                assert(entity_ref_views(r@) == entity_ref_views(before).push(e@));
                assert(p(e@));
            }
            i += 1;
        }
        assert(views.take(i as int) == views);
        r
    }

    pub fn find_by_value(&self, entity_type: EntityType, value: &str) -> (r: Option<&Entity>)
        requires
            self.wf(),
        ensures
            match r {
                Some(e) => place_of(self@.nodes, entity_type, value@) matches Some(i) && e@
                    == self@.nodes[i],
                None => place_of(self@.nodes, entity_type, value@) is None,
            },
    {
        let key = dedup_key(entity_type, value);
        proof {
            lemma_place_of(self@.nodes, entity_type, value@);
        }
        match self.dedup_index.get(key.as_str()) {
            Some(at) => Some(node(&self.graph, *at)),
            None => None,
        }
    }

    /// Outbound relations for the given entity, as `(kind, target entity)` pairs.
    pub fn relations_of(&self, id: u128) -> (r: Vec<(&RelationKind, &Entity)>)
        requires
            self.wf(),
        ensures
            r@.map_values(|p: (&RelationKind, &Entity)| (p.0@, p.1@)) == self@.links_of(id),
    {
        broadcast use vstd::std_specs::hash::group_hash_axioms;

        let mut r: Vec<(&RelationKind, &Entity)> = Vec::new();
        proof {
            lemma_node_of(self@.nodes, id);
        }
        let at: usize = match self.index.get(&id) {
            Some(at) => *at,
            None => {
                assert(r@.map_values(|p: (&RelationKind, &Entity)| (p.0@, p.1@)) == self@.links_of(
                    id,
                ));
                return r;
            },
        };
        let edges = edges_from(&self.graph, at);
        let ghost views = outgoing(self@.edges, at as int);
        let ghost seen = |e: (usize, &RelationKind)|
            EdgeView { source: at as int, target: e.0 as int, kind: e.1@ };
        assert(edges@.map_values(seen) == views);
        assert(edges@.len() == views.len());
        assert forall|k: int| 0 <= k < edges@.len() implies (#[trigger] edges@[k]).0
            < self@.nodes.len() && views[k] == seen(edges@[k]) by {
            assert(edges@.map_values(seen)[k] == seen(edges@[k]));
            let out = |e: EdgeView| e.source == at as int;
            let all = self@.edges.filter(out);
            let back = all.len() - 1 - k;
            assert(all.reverse()[k] == all[back]);
            assert(all.contains(all[back]));
            self@.edges.lemma_filter_contains_rev(out, all[back]);
        }
        let mut i: usize = 0;
        while i < edges.len()
            invariant
                i <= edges.len(),
                self.wf(),
                r@.len() == i,
                edges@.len() == views.len(),
                seen == (|e: (usize, &RelationKind)|
                    EdgeView { source: at as int, target: e.0 as int, kind: e.1@ }),
                forall|k: int|
                    0 <= k < edges@.len() ==> (#[trigger] edges@[k]).0 < self@.nodes.len()
                        && views[k] == seen(edges@[k]),
                forall|k: int|
                    0 <= k < i ==> (#[trigger] r@[k]).0@ == views[k].kind && r@[k].1@
                        == self@.nodes[views[k].target],
            decreases edges.len() - i,
        {
            let (target, kind) = edges[i];
            assert(views[i as int] == seen(edges@[i as int]));
            r.push((kind, node(&self.graph, target)));
            i += 1;
        }
        assert(r@.map_values(|p: (&RelationKind, &Entity)| (p.0@, p.1@)) == self@.links_of(id));
        r
    }

    /// Snapshot the whole graph as a plain structure suitable for output.
    pub fn to_snapshot(&self) -> (r: GraphSnapshot)
        requires
            self.wf(),
        ensures
            entity_views(r.nodes@) == self@.nodes,
            edge_snapshot_views(r.edges@) == self@.links(),
    {
        let all = node_weights(&self.graph);
        let ghost views = entity_ref_views(all@);
        let mut nodes: Vec<Entity> = Vec::new();
        let mut i: usize = 0;
        while i < all.len()
            invariant
                i <= all.len(),
                nodes@.len() == i,
                forall|k: int| 0 <= k < i ==> (#[trigger] nodes@[k])@ == all@[k]@,
            decreases all.len() - i,
        {
            nodes.push(all[i].clone());
            i += 1;
        }
        assert(entity_views(nodes@) == views);
        let refs = all_edges(&self.graph);
        let ghost seen = |e: (usize, usize, &RelationKind)|
            EdgeView { source: e.0 as int, target: e.1 as int, kind: e.2@ };
        let mut edges: Vec<EdgeSnapshot> = Vec::new();
        let mut j: usize = 0;
        while j < refs.len()
            invariant
                j <= refs.len(),
                self.wf(),
                seen == (|e: (usize, usize, &RelationKind)|
                    EdgeView { source: e.0 as int, target: e.1 as int, kind: e.2@ }),
                refs@.map_values(seen) == self@.edges,
                edges@.len() == j,
                forall|k: int|
                    0 <= k < j ==> (#[trigger] edges@[k])@ == self@.links()[k],
            decreases refs.len() - j,
        {
            let (source, target, kind) = refs[j];
            assert(self@.edges[j as int] == seen(refs@[j as int]));
            edges.push(
                EdgeSnapshot {
                    source: node(&self.graph, source).id,
                    target: node(&self.graph, target).id,
                    kind: kind.clone(),
                },
            );
            j += 1;
        }
        assert(edge_snapshot_views(edges@) == self@.links());
        GraphSnapshot { nodes, edges }
    }
}

/// The models of borrowed entities.
pub open spec fn entity_ref_views(v: Seq<&Entity>) -> Seq<EntityView> {
    v.map_values(|e: &Entity| e@)
}

/// The number of relations that a list of entities holds.
pub open spec fn relation_count(es: Seq<EntityView>) -> nat
    decreases es.len(),
{
    if es.len() == 0 {
        0
    } else {
        relation_count(es.drop_last()) + es.last().relations.len()
    }
}

proof fn lemma_growth_bound(m: GraphModel, es: Seq<EntityView>)
    ensures
        m.with_entities(es).nodes.len() <= m.nodes.len() + es.len(),
        m.with_entities(es).edges.len() + m.with_entities(es).pending.len() == m.edges.len()
            + m.pending.len() + relation_count(es),
    decreases es.len(),
{
    if es.len() > 0 {
        lemma_growth_bound(m, es.drop_last());
        let near = m.with_entities(es.drop_last());
        law_no_relation_is_lost(near, es.last());
        lemma_place_of(near.nodes, es.last().entity_type, es.last().value);
    }
}

/// A plain copy of a graph.
#[derive(Debug)]
pub struct GraphSnapshot {
    pub nodes: Vec<Entity>,
    pub edges: Vec<EdgeSnapshot>,
}

/// A link between two entities, given by their ids.
#[derive(Debug)]
pub struct EdgeSnapshot {
    pub source: u128,
    pub target: u128,
    pub kind: RelationKind,
}

impl View for EdgeSnapshot {
    type V = LinkView;

    open spec fn view(&self) -> LinkView {
        LinkView { source: self.source, target: self.target, kind: self.kind@ }
    }
}

/// The models of a list of links.
pub open spec fn edge_snapshot_views(v: Seq<EdgeSnapshot>) -> Seq<LinkView> {
    v.map_values(|e: EdgeSnapshot| e@)
}

} // verus!
