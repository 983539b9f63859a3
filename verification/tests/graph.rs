use explorator::entity::{Confidence, Entity, EntityType, RelationKind};
use explorator::graph::EntityGraph;
use explorator::json::Json;

fn object(members: Vec<(&str, Json)>) -> Json {
    Json::Object(members.into_iter().map(|(k, v)| (k.to_string(), v)).collect())
}

fn text(s: &str) -> Json {
    Json::Text(s.to_string())
}

fn confidence(x: f32) -> Confidence {
    Confidence { bits: x.to_bits() }
}

#[test]
fn merging_same_entity_combines_metadata_without_clobbering() {
    let mut graph = EntityGraph::new();

    let first = Entity::new(EntityType::Domain, "example.com", "certsh")
        .with_metadata(object(vec![("wildcard", Json::Bool(false))]));
    graph.add_entity(first);

    let second = Entity::new(EntityType::Domain, "example.com", "whois")
        .with_metadata(object(vec![("registrar", text("Example Registrar"))]));
    graph.add_entity(second);

    let merged = graph
        .find_by_value(EntityType::Domain, "example.com")
        .expect("entity should exist");

    assert_eq!(merged.source, "certsh", "source stays the first discoverer");
    assert_eq!(merged.metadata.get("wildcard"), Some(&Json::Bool(false)));
    assert_eq!(merged.metadata.get("registrar"), Some(&text("Example Registrar")));
    assert_eq!(graph.len(), 1, "dedup should not create a second node");
}

#[test]
fn merging_keeps_id_and_greater_confidence() {
    let mut graph = EntityGraph::new();
    assert!(graph.is_empty());
    let first = Entity::with_identity(1, 100, EntityType::Url, "http://a", "x")
        .with_confidence(confidence(0.5));
    assert_eq!(graph.add_entity(first), 1);
    let lower = Entity::with_identity(2, 200, EntityType::Url, "http://a", "y")
        .with_confidence(confidence(0.25));
    assert_eq!(graph.add_entity(lower), 1);
    let nan = Entity::with_identity(3, 300, EntityType::Url, "http://a", "z")
        .with_confidence(confidence(f32::NAN));
    graph.add_entity(nan);
    assert_eq!(graph.get(1).unwrap().confidence, confidence(0.5));
    let higher = Entity::with_identity(4, 400, EntityType::Url, "http://a", "w")
        .with_confidence(confidence(0.75));
    graph.add_entity(higher);
    let kept = graph.get(1).unwrap();
    assert_eq!(kept.confidence, confidence(0.75));
    assert_eq!(kept.timestamp, 400);
    assert_eq!(kept.source, "x");
    assert!(graph.get(2).is_none());
    assert_eq!(graph.len(), 1);
    assert!(!graph.is_empty());
}

#[test]
fn the_same_value_of_another_kind_is_another_node() {
    let mut graph = EntityGraph::new();
    graph.add_entity(Entity::new(EntityType::Domain, "example.com", "x"));
    graph.add_entity(Entity::new(EntityType::Subdomain, "example.com", "x"));
    assert_eq!(graph.len(), 2);
    assert_eq!(graph.entities_by_type(EntityType::Subdomain).len(), 1);
    assert_eq!(graph.entities_by_type(EntityType::Port).len(), 0);
    assert!(graph.find_by_value(EntityType::Port, "example.com").is_none());
    let all: Vec<EntityType> = graph.entities().iter().map(|e| e.entity_type).collect();
    assert_eq!(all, vec![EntityType::Domain, EntityType::Subdomain]);
}

#[test]
fn a_relation_waits_for_its_target() {
    let mut graph = EntityGraph::new();
    let sub = Entity::with_identity(1, 0, EntityType::Subdomain, "www", "x")
        .with_relation(2, RelationKind::ResolvesTo)
        .with_relation(3, RelationKind::DiscoveredFrom);
    graph.add_entity(sub);
    assert!(graph.relations_of(1).is_empty());
    graph.add_entity(Entity::with_identity(2, 0, EntityType::IpAddress, "192.0.2.1", "x"));
    let one = graph.relations_of(1);
    assert_eq!(one.len(), 1);
    assert_eq!(one[0].0, &RelationKind::ResolvesTo);
    assert_eq!(one[0].1.value, "192.0.2.1");
    graph.add_entity(Entity::with_identity(3, 0, EntityType::Domain, "d", "x"));
    let two = graph.relations_of(1);
    assert_eq!(two.len(), 2);
    assert_eq!(two[0].0, &RelationKind::DiscoveredFrom, "the latest comes first");
    assert_eq!(two[1].1.id, 2);
    assert!(graph.relations_of(2).is_empty());
    assert!(graph.relations_of(99).is_empty());
}

#[test]
fn a_relation_of_a_known_entity_starts_at_the_kept_id() {
    let mut graph = EntityGraph::new();
    let ip = Entity::with_identity(1, 0, EntityType::IpAddress, "192.0.2.1", "x");
    let port = Entity::with_identity(2, 0, EntityType::Port, "192.0.2.1:80", "x");
    let again = Entity::with_identity(3, 0, EntityType::IpAddress, "192.0.2.1", "y")
        .with_relation(2, RelationKind::HasPort);
    assert!(graph.has_room_for(&vec![again.clone()]));
    graph.add_entities(vec![ip, port, again]);
    let relations = graph.relations_of(1);
    assert_eq!(relations.len(), 1);
    assert_eq!(relations[0].1.value, "192.0.2.1:80");
    assert!(graph.relations_of(3).is_empty());
}

#[test]
fn a_snapshot_shows_nodes_and_links() {
    let mut graph = EntityGraph::new();
    let a = Entity::with_identity(1, 0, EntityType::Domain, "a", "x")
        .with_relation(1, RelationKind::Custom("self".to_string()));
    let b = Entity::with_identity(2, 0, EntityType::Domain, "b", "x")
        .with_relation(1, RelationKind::LinksTo);
    graph.add_entities(vec![a, b]);
    let snapshot = graph.to_snapshot();
    assert_eq!(snapshot.nodes.len(), 2);
    assert_eq!(snapshot.nodes[1].value, "b");
    assert_eq!(snapshot.edges.len(), 2);
    assert_eq!(snapshot.edges[0].source, 1);
    assert_eq!(snapshot.edges[0].target, 1);
    assert_eq!(snapshot.edges[0].kind.to_string(), "self");
    assert_eq!(snapshot.edges[1].source, 2);
    assert_eq!(snapshot.edges[1].target, 1);
    assert_eq!(snapshot.edges[1].kind, RelationKind::LinksTo);
}

#[test]
fn detail_that_is_no_object_is_replaced() {
    let mut graph = EntityGraph::new();
    let id = graph.add_entity(Entity::new(EntityType::Asn, "AS1", "x").with_metadata(text("old")));
    graph.add_entity(Entity::new(EntityType::Asn, "AS1", "x"));
    assert_eq!(graph.get(id).unwrap().metadata, text("old"));
    graph.add_entity(
        Entity::new(EntityType::Asn, "AS1", "x").with_metadata(object(vec![("n", Json::PosInt(1))])),
    );
    assert_eq!(graph.get(id).unwrap().metadata.get("n"), Some(&Json::PosInt(1)));
    graph.add_entity(
        Entity::new(EntityType::Asn, "AS1", "x").with_metadata(text("new")),
    );
    assert_eq!(graph.get(id).unwrap().metadata, text("new"));
}

#[test]
fn one_plugins_detail_never_overwrites_anothers() {
    let mut graph = EntityGraph::new();
    let id = graph.add_entity(
        Entity::new(EntityType::Domain, "a.com", "p")
            .with_metadata(object(vec![("k", Json::PosInt(1)), ("own", Json::Null)])),
    );
    graph.add_entity(
        Entity::new(EntityType::Domain, "a.com", "q").with_metadata(object(vec![
            ("k", Json::PosInt(2)),
            ("own", text("q")),
            ("more", text("q")),
        ])),
    );
    graph.add_entities(vec![
        Entity::new(EntityType::Domain, "a.com", "r").with_metadata(object(vec![("more", text("r"))])),
        Entity::new(EntityType::Domain, "a.com", "s"),
    ]);
    let metadata = &graph.get(id).unwrap().metadata;
    assert_eq!(metadata.get("k"), Some(&Json::PosInt(1)));
    assert_eq!(metadata.get("own"), Some(&Json::Null));
    assert_eq!(metadata.get("more"), Some(&text("q")));
}

#[test]
fn batches_add_up() {
    let e = |id: u128, value: &str| Entity::with_identity(id, 0, EntityType::Port, value, "x");
    let mut one = EntityGraph::new();
    one.add_entities(vec![e(1, "a"), e(2, "b"), e(3, "a"), e(4, "c")]);
    let mut two = EntityGraph::new();
    two.add_entities(vec![e(1, "a"), e(2, "b")]);
    two.add_entities(vec![e(3, "a"), e(4, "c")]);
    let ids = |g: &EntityGraph| g.entities().iter().map(|e| e.id).collect::<Vec<u128>>();
    assert_eq!(ids(&one), vec![1, 2, 4]);
    assert_eq!(ids(&one), ids(&two));
}
