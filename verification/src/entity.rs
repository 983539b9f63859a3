//! The unified data model: recon artifacts and the links between them.
use std::time::{Duration, SystemTime, SystemTimeError};
use vstd::prelude::*;

use crate::json::{Json, JsonView};
use crate::text::copy_text;

verus! {

/// The kinds of recon artifacts that flow through the unified data model.
#[derive(Debug, Clone, Copy, PartialEq, Eq, Hash, Structural)]
pub enum EntityType {
    Domain,
    Subdomain,
    IpAddress,
    Port,
    Service,
    Technology,
    Url,
    Endpoint,
    Certificate,
    EmailAddress,
    Asn,
    Cidr,
    Vulnerability,
    Screenshot,
}

impl EntityType {
    /// The name of the kind, as it is written in output.
    pub open spec fn name(self) -> Seq<char> {
        match self {
            EntityType::Domain => "domain"@,
            EntityType::Subdomain => "subdomain"@,
            EntityType::IpAddress => "ip_address"@,
            EntityType::Port => "port"@,
            EntityType::Service => "service"@,
            EntityType::Technology => "technology"@,
            EntityType::Url => "url"@,
            EntityType::Endpoint => "endpoint"@,
            EntityType::Certificate => "certificate"@,
            EntityType::EmailAddress => "email_address"@,
            EntityType::Asn => "asn"@,
            EntityType::Cidr => "cidr"@,
            EntityType::Vulnerability => "vulnerability"@,
            EntityType::Screenshot => "screenshot"@,
        }
    }

    pub fn to_string(&self) -> (r: String)
        ensures
            r@ == self.name(),
    {
        copy_text(
            match self {
                EntityType::Domain => "domain",
                EntityType::Subdomain => "subdomain",
                EntityType::IpAddress => "ip_address",
                EntityType::Port => "port",
                EntityType::Service => "service",
                EntityType::Technology => "technology",
                EntityType::Url => "url",
                EntityType::Endpoint => "endpoint",
                EntityType::Certificate => "certificate",
                EntityType::EmailAddress => "email_address",
                EntityType::Asn => "asn",
                EntityType::Cidr => "cidr",
                EntityType::Vulnerability => "vulnerability",
                EntityType::Screenshot => "screenshot",
            },
        )
    }
}

/// A typed edge between two entities in the recon graph, e.g. a subdomain
/// resolves to an IP address, or an IP address has a port.
#[derive(Debug, PartialEq, Eq)]
pub enum RelationKind {
    ResolvesTo,
    HasPort,
    RunsService,
    HasVulnerability,
    HasTechnology,
    HasCertificate,
    DiscoveredFrom,
    LinksTo,
    BelongsToAsn,
    BelongsToCidr,
    Custom(String),
}

/// The mathematical model of a relation kind.
pub enum RelationKindView {
    ResolvesTo,
    HasPort,
    RunsService,
    HasVulnerability,
    HasTechnology,
    HasCertificate,
    DiscoveredFrom,
    LinksTo,
    BelongsToAsn,
    BelongsToCidr,
    Custom(Seq<char>),
}

impl View for RelationKind {
    type V = RelationKindView;

    open spec fn view(&self) -> RelationKindView {
        match *self {
            RelationKind::ResolvesTo => RelationKindView::ResolvesTo,
            RelationKind::HasPort => RelationKindView::HasPort,
            RelationKind::RunsService => RelationKindView::RunsService,
            RelationKind::HasVulnerability => RelationKindView::HasVulnerability,
            RelationKind::HasTechnology => RelationKindView::HasTechnology,
            RelationKind::HasCertificate => RelationKindView::HasCertificate,
            RelationKind::DiscoveredFrom => RelationKindView::DiscoveredFrom,
            RelationKind::LinksTo => RelationKindView::LinksTo,
            RelationKind::BelongsToAsn => RelationKindView::BelongsToAsn,
            RelationKind::BelongsToCidr => RelationKindView::BelongsToCidr,
            RelationKind::Custom(s) => RelationKindView::Custom(s@),
        }
    }
}

impl RelationKindView {
    /// The name of the relation, as it is written in output.
    pub open spec fn name(self) -> Seq<char> {
        match self {
            RelationKindView::ResolvesTo => "resolves_to"@,
            RelationKindView::HasPort => "has_port"@,
            RelationKindView::RunsService => "runs_service"@,
            RelationKindView::HasVulnerability => "has_vulnerability"@,
            RelationKindView::HasTechnology => "has_technology"@,
            RelationKindView::HasCertificate => "has_certificate"@,
            RelationKindView::DiscoveredFrom => "discovered_from"@,
            RelationKindView::LinksTo => "links_to"@,
            RelationKindView::BelongsToAsn => "belongs_to_asn"@,
            RelationKindView::BelongsToCidr => "belongs_to_cidr"@,
            RelationKindView::Custom(s) => s,
        }
    }
}

impl RelationKind {
    pub fn to_string(&self) -> (r: String)
        ensures
            r@ == self@.name(),
    {
        copy_text(
            match self {
                RelationKind::ResolvesTo => "resolves_to",
                RelationKind::HasPort => "has_port",
                RelationKind::RunsService => "runs_service",
                RelationKind::HasVulnerability => "has_vulnerability",
                RelationKind::HasTechnology => "has_technology",
                RelationKind::HasCertificate => "has_certificate",
                RelationKind::DiscoveredFrom => "discovered_from",
                RelationKind::LinksTo => "links_to",
                RelationKind::BelongsToAsn => "belongs_to_asn",
                RelationKind::BelongsToCidr => "belongs_to_cidr",
                RelationKind::Custom(s) => s.as_str(),
            },
        )
    }
}

impl Clone for RelationKind {
    fn clone(&self) -> (r: Self)
        ensures
            r@ == self@,
    {
        match self {
            RelationKind::ResolvesTo => RelationKind::ResolvesTo,
            RelationKind::HasPort => RelationKind::HasPort,
            RelationKind::RunsService => RelationKind::RunsService,
            RelationKind::HasVulnerability => RelationKind::HasVulnerability,
            RelationKind::HasTechnology => RelationKind::HasTechnology,
            RelationKind::HasCertificate => RelationKind::HasCertificate,
            RelationKind::DiscoveredFrom => RelationKind::DiscoveredFrom,
            RelationKind::LinksTo => RelationKind::LinksTo,
            RelationKind::BelongsToAsn => RelationKind::BelongsToAsn,
            RelationKind::BelongsToCidr => RelationKind::BelongsToCidr,
            RelationKind::Custom(s) => RelationKind::Custom(s.clone()),
        }
    }
}

/// A directed link from the owning entity to another entity by id.
#[derive(Debug)]
pub struct Relation {
    pub target: u128,
    pub kind: RelationKind,
}

/// The mathematical model of a relation.
pub struct RelationView {
    pub target: u128,
    pub kind: RelationKindView,
}

impl View for Relation {
    type V = RelationView;

    open spec fn view(&self) -> RelationView {
        RelationView { target: self.target, kind: self.kind@ }
    }
}

impl Relation {
    pub fn new(target: u128, kind: RelationKind) -> (r: Self)
        ensures
            r@ == (RelationView { target, kind: kind@ }),
    {
        Relation { target, kind }
    }
}

impl Clone for Relation {
    fn clone(&self) -> (r: Self)
        ensures
            r@ == self@,
    {
        Relation { target: self.target, kind: self.kind.clone() }
    }
}

/// The models of a list of relations.
pub open spec fn relation_views(v: Seq<Relation>) -> Seq<RelationView> {
    v.map_values(|r: Relation| r@)
}

/// How sure a plugin is of an entity, between 0 and 1, as the bits of an
/// IEEE 754 single.
#[derive(Debug, Clone, Copy, PartialEq, Eq, Structural)]
pub struct Confidence {
    pub bits: u32,
}

/// Full confidence: the single 1.0.
pub const FULL_CONFIDENCE: u32 = 0x3F80_0000;

impl Confidence {
    /// Whether the bits stand for a number at all.
    pub open spec fn is_number(self) -> bool {
        self.bits % 0x8000_0000 <= 0x7F80_0000
    }

    /// Numbers are ordered as their ranks; both zeros have rank 0.
    pub open spec fn rank(self) -> int {
        if self.bits < 0x8000_0000 {
            self.bits as int
        } else {
            0x8000_0000 - self.bits
        }
    }

    /// Whether this confidence is a greater number than the other.
    pub open spec fn exceeds_spec(self, other: Confidence) -> bool {
        self.is_number() && other.is_number() && self.rank() > other.rank()
    }

    pub fn exceeds(self, other: Confidence) -> (r: bool)
        ensures
            r == self.exceeds_spec(other),
    {
        if self.bits % 0x8000_0000 > 0x7F80_0000 || other.bits % 0x8000_0000 > 0x7F80_0000 {
            return false;
        }
        let a: i64 = if self.bits < 0x8000_0000 {
            self.bits as i64
        } else {
            0x8000_0000i64 - self.bits as i64
        };
        let b: i64 = if other.bits < 0x8000_0000 {
            other.bits as i64
        } else {
            0x8000_0000i64 - other.bits as i64
        };
        a > b
    }
}

/// A single normalized recon artifact. Every plugin output, regardless of
/// which external tool produced it, is converted into one or more `Entity`
/// values before being merged into the pipeline's entity graph.
#[derive(Debug)]
pub struct Entity {
    pub id: u128,
    pub entity_type: EntityType,
    /// Primary string representation: a domain name, an IP, a URL, etc.
    pub value: String,
    /// Name of the plugin that produced this entity (e.g. "subfinder").
    pub source: String,
    /// 0.0-1.0 confidence that this entity is accurate / still valid.
    pub confidence: Confidence,
    /// Unix epoch seconds when the entity was created.
    pub timestamp: u64,
    /// Tool-specific structured detail (headers, DNS records, CVE ids, ...).
    pub metadata: Json,
    /// Outbound links to other entities already known at creation time.
    pub relations: Vec<Relation>,
}

/// The mathematical model of an entity.
pub struct EntityView {
    pub id: u128,
    pub entity_type: EntityType,
    pub value: Seq<char>,
    pub source: Seq<char>,
    pub confidence: Confidence,
    pub timestamp: u64,
    pub metadata: JsonView,
    pub relations: Seq<RelationView>,
}

impl View for Entity {
    type V = EntityView;

    open spec fn view(&self) -> EntityView {
        EntityView {
            id: self.id,
            entity_type: self.entity_type,
            value: self.value@,
            source: self.source@,
            confidence: self.confidence,
            timestamp: self.timestamp,
            metadata: self.metadata@,
            relations: relation_views(self.relations@),
        }
    }
}

/// What an entity says, apart from its identity and the time it was made.
pub struct Draft {
    pub entity_type: EntityType,
    pub value: Seq<char>,
    pub source: Seq<char>,
    pub confidence: Confidence,
    pub metadata: JsonView,
    pub relations: Seq<RelationView>,
}

impl EntityView {
    pub open spec fn draft(self) -> Draft {
        Draft {
            entity_type: self.entity_type,
            value: self.value,
            source: self.source,
            confidence: self.confidence,
            metadata: self.metadata,
            relations: self.relations,
        }
    }
}

/// A new artifact: fully trusted, without detail or links.
pub open spec fn plain_draft(entity_type: EntityType, value: Seq<char>, source: Seq<char>) -> Draft {
    Draft {
        entity_type,
        value,
        source,
        confidence: Confidence { bits: FULL_CONFIDENCE },
        metadata: JsonView::Null,
        relations: Seq::empty(),
    }
}

/// The models of a list of entities.
pub open spec fn entity_views(v: Seq<Entity>) -> Seq<EntityView> {
    v.map_values(|e: Entity| e@)
}

/// What a list of entities says.
pub open spec fn drafts(v: Seq<Entity>) -> Seq<Draft> {
    v.map_values(|e: Entity| e@.draft())
}

/// The identities of a list of entities.
pub open spec fn ids(v: Seq<Entity>) -> Seq<u128> {
    v.map_values(|e: Entity| e.id)
}

/// Whether an id is a random UUID: version 4 of the RFC 9562 variant.
pub open spec fn is_random_id(id: u128) -> bool {
    (id / 0x1000_0000_0000_0000_0000) % 16 == 4 && (id / 0x4000_0000_0000_0000) % 4 == 2
}

/// Whether every entity of a list has a random id.
pub open spec fn fresh(v: Seq<Entity>) -> bool {
    forall|i: int| 0 <= i < v.len() ==> is_random_id((#[trigger] v[i]).id)
}

/// `Uuid::new_v4`, read by `Uuid::as_u128`: a random number whose version bits
/// are 4 and whose variant bits are those of RFC 9562. Which number it is, is
/// left to chance.
#[verifier::external_body]
fn random_id() -> (id: u128)
    ensures
        is_random_id(id),
{
    uuid::Uuid::new_v4().as_u128()
}

/// A point of the system's clock.
#[verifier::external_type_specification]
#[verifier::external_body]
pub struct ExSystemTime(SystemTime);

/// A clock that stands before the point it is measured from.
#[verifier::external_type_specification]
#[verifier::external_body]
pub struct ExSystemTimeError(SystemTimeError);

/// `SystemTime::now` reads the system's clock; nothing is claimed of what it
/// shows.
pub assume_specification[ SystemTime::now ]() -> (r: SystemTime)
;

/// `SystemTime::duration_since` is the time from one clock reading to another,
/// or an error where the other is later; nothing is claimed of either, since a
/// clock reading has no known value.
pub assume_specification[ SystemTime::duration_since ](t: &SystemTime, earlier: SystemTime) -> (r:
    Result<Duration, SystemTimeError>)
;

/// `Duration::as_secs` gives the whole seconds of a span of time; nothing is
/// claimed of their number.
pub assume_specification[ Duration::as_secs ](d: &Duration) -> (r: u64)
;

/// `SystemTime::UNIX_EPOCH`, the point that timestamps count from.
#[verifier::external_body]
fn unix_epoch() -> SystemTime {
    SystemTime::UNIX_EPOCH
}

/// The timestamp for the seconds since the Unix epoch, if the clock is not
/// set before it.
pub fn timestamp(elapsed: Option<u64>) -> (r: u64)
    ensures
        r == match elapsed {
            Some(secs) => secs,
            None => 0,
        },
{
    match elapsed {
        Some(secs) => secs,
        None => 0,
    }
}

/// The current time in Unix epoch seconds.
fn now() -> (r: u64) {
    let elapsed: Option<u64> = match SystemTime::now().duration_since(unix_epoch()) {
        Ok(d) => Some(d.as_secs()),
        Err(_) => None,
    };
    timestamp(elapsed)
}

impl Entity {
    /// A new entity with an id and a timestamp of its own.
    pub fn new(entity_type: EntityType, value: &str, source: &str) -> (r: Self)
        ensures
            r@.draft() == plain_draft(entity_type, value@, source@),
            is_random_id(r.id),
    {
        Self::with_identity(random_id(), now(), entity_type, value, source)
    }

    /// A new entity with a given id and timestamp.
    pub fn with_identity(
        id: u128,
        timestamp: u64,
        entity_type: EntityType,
        value: &str,
        source: &str,
    ) -> (r: Self)
        ensures
            r@.draft() == plain_draft(entity_type, value@, source@),
            r.id == id,
            r.timestamp == timestamp,
    {
        let r = Entity {
            id,
            entity_type,
            value: copy_text(value),
            source: copy_text(source),
            confidence: Confidence { bits: FULL_CONFIDENCE },
            timestamp,
            metadata: Json::Null,
            relations: Vec::new(),
        };
        assert(r@.relations == Seq::<RelationView>::empty());
        r
    }

    pub fn with_confidence(self, confidence: Confidence) -> (r: Self)
        ensures
            r@ == (EntityView { confidence, ..self@ }),
    {
        let mut r = self;
        r.confidence = confidence;
        r
    }

    pub fn with_metadata(self, metadata: Json) -> (r: Self)
        ensures
            r@ == (EntityView { metadata: metadata@, ..self@ }),
    {
        let mut r = self;
        r.metadata = metadata;
        r
    }

    pub fn with_relation(self, target: u128, kind: RelationKind) -> (r: Self)
        ensures
            r@ == (EntityView {
                relations: self@.relations.push(RelationView { target, kind: kind@ }),
                ..self@
            }),
    {
        let mut r = self;
        r.relations.push(Relation::new(target, kind));
        assert(r@.relations == self@.relations.push(RelationView { target, kind: kind@ }));
        r
    }
}

/// A copy of a list of relations.
fn copy_relations(v: &Vec<Relation>) -> (r: Vec<Relation>)
    ensures
        relation_views(r@) == relation_views(v@),
{
    let mut r: Vec<Relation> = Vec::new();
    let mut i: usize = 0;
    while i < v.len()
        invariant
            i <= v.len(),
            relation_views(r@) == relation_views(v@).take(i as int),
        decreases v.len() - i,
    {
        let ghost before = r@;
        let c = v[i].clone();
        r.push(c);
        assert(relation_views(r@) == relation_views(before).push(c@));
        assert(relation_views(v@).take(i + 1) == relation_views(v@).take(i as int).push(
            relation_views(v@)[i as int],
        ));
        i += 1;
    }
    assert(relation_views(v@).take(i as int) == relation_views(v@));
    r
}

impl Clone for Entity {
    fn clone(&self) -> (r: Self)
        ensures
            r@ == self@,
    {
        Entity {
            id: self.id,
            entity_type: self.entity_type,
            value: self.value.clone(),
            source: self.source.clone(),
            confidence: self.confidence,
            timestamp: self.timestamp,
            metadata: self.metadata.copy(),
            relations: copy_relations(&self.relations),
        }
    }
}

/// A copy of a list of entities.
pub fn copy_entities(v: &Vec<Entity>) -> (r: Vec<Entity>)
    ensures
        entity_views(r@) == entity_views(v@),
{
    let mut r: Vec<Entity> = Vec::new();
    let mut i: usize = 0;
    while i < v.len()
        invariant
            i <= v.len(),
            entity_views(r@) == entity_views(v@).take(i as int),
        decreases v.len() - i,
    {
        let ghost before = r@;
        let c = v[i].clone();
        r.push(c);
        assert(entity_views(r@) == entity_views(before).push(c@));
        assert(entity_views(v@).take(i + 1) == entity_views(v@).take(i as int).push(
            entity_views(v@)[i as int],
        ));
        i += 1;
    }
    assert(entity_views(v@).take(i as int) == entity_views(v@));
    r
}

/// A confidence never exceeds itself, and of two confidences at most one
/// exceeds the other.
pub proof fn law_confidence_order_is_strict(a: Confidence, b: Confidence)
    ensures
        !a.exceeds_spec(a),
        a.exceeds_spec(b) ==> !b.exceeds_spec(a),
{
}

} // verus!
