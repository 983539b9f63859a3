use explorator::entity::{timestamp, Confidence, Entity, EntityType, Relation, RelationKind};
use explorator::error::Error;
use explorator::json::{put, Json};

#[test]
fn new_entities_have_random_ids() {
    let a = Entity::new(EntityType::Domain, "example.com", "seed");
    let b = Entity::new(EntityType::Domain, "example.com", "seed");
    assert_ne!(a.id, b.id);
    assert_eq!((a.id >> 76) & 0xF, 4);
    assert_eq!((a.id >> 62) & 0x3, 2);
    assert_eq!(a.confidence.bits, 1.0f32.to_bits());
    assert_eq!(a.metadata, Json::Null);
    assert!(a.relations.is_empty());
    assert!(a.timestamp > 1_600_000_000);
}

#[test]
fn a_clock_before_the_epoch_gives_zero() {
    assert_eq!(timestamp(Some(5)), 5);
    assert_eq!(timestamp(None), 0);
}

#[test]
fn builders_change_one_thing() {
    let e = Entity::with_identity(9, 8, EntityType::Port, "p", "s")
        .with_confidence(Confidence { bits: 0.5f32.to_bits() })
        .with_metadata(Json::Bool(true))
        .with_relation(7, RelationKind::HasPort);
    assert_eq!(e.id, 9);
    assert_eq!(e.timestamp, 8);
    assert_eq!(e.value, "p");
    assert_eq!(e.source, "s");
    assert_eq!(e.confidence.bits, 0.5f32.to_bits());
    assert_eq!(e.metadata, Json::Bool(true));
    assert_eq!(e.relations[0].target, 7);
    let r = Relation::new(1, RelationKind::LinksTo);
    assert_eq!(r.kind, RelationKind::LinksTo);
    let copy = e.clone();
    assert_eq!(copy.id, 9);
    assert_eq!(copy.relations.len(), 1);
}

#[test]
fn confidence_is_ordered_as_numbers_are() {
    let values = [0.0f32, -0.0, 1.0, -1.0, 0.5, f32::NAN, f32::INFINITY, f32::NEG_INFINITY, 1e-40];
    for a in values {
        for b in values {
            let greater = Confidence { bits: a.to_bits() }.exceeds(Confidence { bits: b.to_bits() });
            assert_eq!(greater, a > b, "{a} > {b}");
        }
    }
}

#[test]
fn kinds_have_names() {
    assert_eq!(EntityType::Domain.to_string(), "domain");
    assert_eq!(EntityType::IpAddress.to_string(), "ip_address");
    assert_eq!(EntityType::EmailAddress.to_string(), "email_address");
    assert_eq!(EntityType::Screenshot.to_string(), "screenshot");
    assert_eq!(RelationKind::ResolvesTo.to_string(), "resolves_to");
    assert_eq!(RelationKind::BelongsToCidr.to_string(), "belongs_to_cidr");
    assert_eq!(RelationKind::Custom("x y".to_string()).to_string(), "x y");
}

#[test]
fn errors_have_messages() {
    let s = |t: &str| t.to_string();
    assert_eq!(Error::PipelineParse(s("m")).to_string(), "failed to parse pipeline: m");
    assert_eq!(Error::InvalidPipeline(s("m")).to_string(), "invalid pipeline definition: m");
    assert_eq!(Error::UnknownPlugin(s("m")).to_string(), "unknown plugin: m");
    assert_eq!(
        Error::MissingBinary { plugin: s("p"), binary: s("b") }.to_string(),
        "plugin 'p' requires binary 'b' which was not found on PATH"
    );
    assert_eq!(
        Error::PluginExecution { plugin: s("p"), message: s("m") }.to_string(),
        "plugin 'p' failed: m"
    );
    assert_eq!(
        Error::Timeout { stage: s("s"), secs: 30 }.to_string(),
        "stage 's' timed out after 30s"
    );
    assert_eq!(Error::Io(s("m")).to_string(), "io error: m");
}

#[test]
fn json_members_are_set_by_name() {
    let mut members = Vec::new();
    put(&mut members, "a".to_string(), Json::PosInt(1));
    put(&mut members, "b".to_string(), Json::Null);
    put(&mut members, "a".to_string(), Json::NegInt(-1));
    let v = Json::Object(members);
    assert_eq!(v.get("a"), Some(&Json::NegInt(-1)));
    assert_eq!(v.get("b"), Some(&Json::Null));
    assert_eq!(v.get("c"), None);
    assert_eq!(Json::Array(vec![]).get("a"), None);
    assert_eq!(Json::Text("t".to_string()).as_str(), Some("t"));
    assert_eq!(Json::Bool(true).as_bool(), Some(true));
    assert_eq!(Json::PosInt(7).as_u64(), Some(7));
    assert_eq!(Json::NegInt(-7).as_u64(), None);
    assert_eq!(Json::Float(1.5f64.to_bits()).as_u64(), None);
    assert!(Json::Null.as_array().is_none());
    assert_eq!(v.clone(), v);
}

#[test]
fn merging_json_twice_changes_nothing_more() {
    let mut a = Json::Object(vec![("x".to_string(), Json::PosInt(1))]);
    let b = Json::Object(vec![("y".to_string(), Json::PosInt(2))]);
    a.merge(&b);
    let once = a.clone();
    a.merge(&b);
    assert_eq!(a, once);
    assert_eq!(a.get("x"), Some(&Json::PosInt(1)));
    assert_eq!(a.get("y"), Some(&Json::PosInt(2)));
    a.merge(&Json::Object(vec![("x".to_string(), Json::PosInt(9))]));
    assert_eq!(a.get("x"), Some(&Json::PosInt(1)));
    let once = a.clone();
    a.merge(&Json::Null);
    assert_eq!(a, once);
    a.merge(&Json::Array(vec![]));
    assert_eq!(a, Json::Array(vec![]));
}
