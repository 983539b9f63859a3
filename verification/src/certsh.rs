//! Certificate search: which sources to ask, and what certificates say of a
//! domain.
use vstd::prelude::*;

use crate::entity::{
    drafts, fresh, ids, is_random_id, plain_draft, Confidence, Draft, Entity, EntityType,
    EntityView, RelationKind, RelationKindView, RelationView, FULL_CONFIDENCE,
};
use crate::error::{plugin_failure, Error, ErrorView};
use crate::gather::outcome_view;
use crate::json::{json_text_or_null, opt_text, put_named, text_or_null, Json, JsonView};
use crate::plugin::ReconPlugin;
use crate::text::{
    begins_with, chars_of, copy_text, copy_texts, decimal, join, join_texts, lower, same_chars,
    texts, to_decimal, to_lower,
};
use crate::tool::{filled_lines, lines_of};
use crate::x509::{certificate_names, extract_san_dns_names};

verus! {

/// Certificate transparency log search: talks to crt.sh's JSON API (and a
/// fallback source) directly over HTTP, and reads the certificate that the
/// domain itself presents.
pub struct CertshPlugin;

impl ReconPlugin for CertshPlugin {
    open spec fn name_text(&self) -> Seq<char> {
        "certsh"@
    }

    open spec fn binary_text(&self) -> Seq<char> {
        "none (native HTTPS client)"@
    }

    open spec fn inputs(&self) -> Seq<EntityType> {
        seq![EntityType::Domain]
    }

    open spec fn outputs(&self) -> Seq<EntityType> {
        seq![EntityType::Subdomain, EntityType::Certificate]
    }

    open spec fn native(&self) -> bool {
        true
    }

    fn name(&self) -> (r: &str) {
        "certsh"
    }

    fn required_binary(&self) -> (r: &str) {
        "none (native HTTPS client)"
    }

    fn input_types(&self) -> (r: Vec<EntityType>) {
        vec![EntityType::Domain]
    }

    fn output_types(&self) -> (r: Vec<EntityType>) {
        vec![EntityType::Subdomain, EntityType::Certificate]
    }

    fn is_available(&self, found_on_path: bool) -> (r: bool) {
        true
    }
}

/// A record of crt.sh.
#[derive(Debug)]
pub struct CrtShRecord {
    pub id: u64,
    pub name_value: String,
    pub issuer_name: Option<String>,
    pub not_before: Option<String>,
    pub not_after: Option<String>,
}

#[derive(Debug)]
pub struct CertSpotterIssuer {
    pub name: Option<String>,
}

/// A record of certspotter.
#[derive(Debug)]
pub struct CertSpotterRecord {
    pub id: String,
    pub dns_names: Vec<String>,
    pub not_before: Option<String>,
    pub not_after: Option<String>,
    pub issuer: Option<CertSpotterIssuer>,
}

/// A certificate: what it is called, its detail, and the hosts it covers.
pub struct Certificate {
    pub value: String,
    pub metadata: Json,
    pub hosts: Vec<String>,
}

/// The mathematical model of a certificate.
pub struct CertificateView {
    pub value: Seq<char>,
    pub metadata: JsonView,
    pub hosts: Seq<Seq<char>>,
}

impl View for Certificate {
    type V = CertificateView;

    open spec fn view(&self) -> CertificateView {
        CertificateView {
            value: self.value@,
            metadata: self.metadata@,
            hosts: texts(self.hosts@),
        }
    }
}

/// The models of a list of certificates.
pub open spec fn certificate_views(v: Seq<Certificate>) -> Seq<CertificateView> {
    v.map_values(|c: Certificate| c@)
}

/// The certificate that a record of crt.sh is about. Its hosts stand in lines.
pub open spec fn crtsh_certificate(rec: CrtShRecord) -> CertificateView {
    CertificateView {
        value: decimal(rec.id as nat),
        metadata: JsonView::Object(
            map![
                "issuer"@ => text_or_null(opt_text(rec.issuer_name)),
                "not_before"@ => text_or_null(opt_text(rec.not_before)),
                "not_after"@ => text_or_null(opt_text(rec.not_after)),
            ],
        ),
        hosts: filled_lines(rec.name_value@),
    }
}

/// The certificate that a record of certspotter is about.
pub open spec fn certspotter_certificate(rec: CertSpotterRecord) -> CertificateView {
    CertificateView {
        value: rec.id@,
        metadata: JsonView::Object(
            map![
                "issuer"@ => text_or_null(match rec.issuer {
                    Some(i) => opt_text(i.name),
                    None => None,
                }),
                "not_before"@ => text_or_null(opt_text(rec.not_before)),
                "not_after"@ => text_or_null(opt_text(rec.not_after)),
                "fallback_source"@ => JsonView::Text("certspotter"@),
            ],
        ),
        hosts: texts(rec.dns_names@),
    }
}

/// The certificate that a domain presents, for the hosts that it names.
pub open spec fn live_certificate(domain: Seq<char>, hosts: Seq<Seq<char>>) -> CertificateView {
    CertificateView {
        value: "tls-live:"@ + domain,
        metadata: JsonView::Object(
            map!["source_method"@ => JsonView::Text("live_tls_handshake"@)],
        ),
        hosts,
    }
}

/// What a host on a certificate says: whether it is a wildcard, which
/// certificate it has, and where it was found. The queried domain commonly
/// stands on its own certificate; it is not linked to itself.
pub open spec fn host_draft(host: Seq<char>, domain: EntityView, cert_id: u128) -> Draft {
    let is_root = lower(host) == lower(domain.value);
    Draft {
        entity_type: if is_root {
            EntityType::Domain
        } else {
            EntityType::Subdomain
        },
        value: host,
        source: "certsh"@,
        confidence: Confidence { bits: FULL_CONFIDENCE },
        metadata: JsonView::Object(map!["wildcard"@ => JsonView::Bool("*."@.is_prefix_of(host))]),
        relations: if is_root {
            seq![RelationView { target: cert_id, kind: RelationKindView::HasCertificate }]
        } else {
            seq![
                RelationView { target: cert_id, kind: RelationKindView::HasCertificate },
                RelationView { target: domain.id, kind: RelationKindView::DiscoveredFrom },
            ]
        },
    }
}

/// Builds the entity for one hostname found on a certificate, linked to its
/// certificate.
pub fn host_entity(host: &str, domain: &Entity, cert_id: u128) -> (r: Entity)
    ensures
        r@.draft() == host_draft(host@, domain@, cert_id),
        is_random_id(r.id),
{
    let name = chars_of(host);
    let is_root = same_chars(&to_lower(&name), &to_lower(&chars_of(domain.value.as_str())));
    let entity_type = if is_root {
        EntityType::Domain
    } else {
        EntityType::Subdomain
    };
    let wildcard = begins_with(&name, &chars_of("*."));
    let mut members: Vec<(String, Json)> = Vec::new();
    put_named(&mut members, "wildcard", Json::Bool(wildcard));
    let mut entity = Entity::new(entity_type, host, "certsh").with_metadata(
        Json::Object(members),
    ).with_relation(cert_id, RelationKind::HasCertificate);
    if !is_root {
        entity = entity.with_relation(domain.id, RelationKind::DiscoveredFrom);
    }
    assert(entity@.metadata == host_draft(host@, domain@, cert_id).metadata);
    assert(entity@.relations == host_draft(host@, domain@, cert_id).relations);
    entity
}

/// What a certificate says: itself, then its hosts; the certificate has the
/// first of the given ids.
pub open spec fn certificate_drafts(
    domain: EntityView,
    cert: CertificateView,
    found: Seq<u128>,
) -> Seq<Draft> {
    seq![
        Draft {
            metadata: cert.metadata,
            ..plain_draft(EntityType::Certificate, cert.value, "certsh"@)
        },
    ] + cert.hosts.map_values(|h: Seq<char>| host_draft(h, domain, found[0]))
}

/// What certificates say, one after the other.
pub open spec fn all_drafts(
    domain: EntityView,
    certs: Seq<CertificateView>,
    found: Seq<u128>,
) -> Seq<Draft>
    decreases certs.len(),
{
    if certs.len() == 0 {
        Seq::empty()
    } else {
        let front = all_drafts(domain, certs.drop_last(), found);
        front + certificate_drafts(domain, certs.last(), found.skip(front.len() as int))
    }
}

fn certificate_entities(domain: &Entity, cert: &Certificate) -> (r: Vec<Entity>)
    ensures
        drafts(r@) == certificate_drafts(domain@, cert@, ids(r@)),
        fresh(r@),
{
    let first = Entity::new(EntityType::Certificate, cert.value.as_str(), "certsh").with_metadata(
        cert.metadata.copy(),
    );
    let id: u128 = first.id;
    let mut r: Vec<Entity> = Vec::new();
    r.push(first);
    let mut k: usize = 0;
    while k < cert.hosts.len()
        invariant
            k <= cert.hosts.len(),
            r@.len() == k + 1,
            r@[0] == first,
            fresh(r@),
            forall|m: int|
                1 <= m < k + 1 ==> (#[trigger] r@[m])@.draft() == host_draft(
                    cert.hosts@[m - 1]@,
                    domain@,
                    id,
                ),
        decreases cert.hosts.len() - k,
    {
        r.push(host_entity(cert.hosts[k].as_str(), domain, id));
        k += 1;
    }
    proof {
        let want = certificate_drafts(domain@, cert@, ids(r@));
        assert(ids(r@)[0] == id);
        assert forall|m: int| 0 <= m < want.len() implies drafts(r@)[m] == want[m] by {
            if m > 0 {
                assert(texts(cert.hosts@)[m - 1] == cert.hosts@[m - 1]@);
                assert(r@[m]@.draft() == host_draft(cert.hosts@[m - 1]@, domain@, id));
            }
        }
        assert(drafts(r@) =~= want);
    }
    r
}

proof fn lemma_all_drafts_agree(
    domain: EntityView,
    certs: Seq<CertificateView>,
    a: Seq<u128>,
    b: Seq<u128>,
)
    requires
        all_drafts(domain, certs, a).len() <= a.len(),
        a.is_prefix_of(b),
    ensures
        all_drafts(domain, certs, a) == all_drafts(domain, certs, b),
    decreases certs.len(),
{
    if certs.len() > 0 {
        let front = certs.drop_last();
        lemma_all_drafts_agree(domain, front, a, b);
        let n = all_drafts(domain, front, a).len() as int;
        assert(b.take(a.len() as int)[n] == b[n]);
        assert(a.skip(n)[0] == b.skip(n)[0]);
    }
}

/// The entities for certificates that were found for a domain.
pub fn entities(domain: &Entity, certs: &Vec<Certificate>) -> (r: Vec<Entity>)
    ensures
        drafts(r@) == all_drafts(domain@, certificate_views(certs@), ids(r@)),
        fresh(r@),
{
    let ghost views = certificate_views(certs@);
    let mut r: Vec<Entity> = Vec::new();
    let mut i: usize = 0;
    assert(drafts(r@) == all_drafts(domain@, views.take(0), ids(r@)));
    while i < certs.len()
        invariant
            i <= certs.len(),
            views == certificate_views(certs@),
            drafts(r@) == all_drafts(domain@, views.take(i as int), ids(r@)),
            fresh(r@),
        decreases certs.len() - i,
    {
        let ghost before = r@;
        let mut more = certificate_entities(domain, &certs[i]);
        let ghost added = more@;
        r.append(&mut more);
        proof {
            let front = views.take(i as int);
            assert(views.take(i + 1).drop_last() == front);
            assert(views.take(i + 1).last() == certs@[i as int]@);
            assert(r@ == before + added);
            assert(drafts(r@) == drafts(before) + drafts(added));
            assert(ids(before).len() == drafts(before).len());
            assert(ids(r@).take(ids(before).len() as int) == ids(before));
            assert(ids(before).is_prefix_of(ids(r@)));
            lemma_all_drafts_agree(domain@, front, ids(before), ids(r@));
            assert(ids(r@).skip(before.len() as int) == ids(added));
            assert forall|k: int| 0 <= k < r@.len() implies is_random_id(
                (#[trigger] r@[k]).id,
            ) by {
                if k < before.len() {
                    assert(r@[k] == before[k]);
                } else {
                    assert(r@[k] == added[k - before.len()]);
                }
            }
        }
        i += 1;
    }
    assert(views.take(i as int) == views);
    r
}

fn read_crtsh(rec: &CrtShRecord) -> (r: Certificate)
    ensures
        r@ == crtsh_certificate(*rec),
{
    let mut members: Vec<(String, Json)> = Vec::new();
    put_named(&mut members, "issuer", json_text_or_null(&rec.issuer_name));
    put_named(&mut members, "not_before", json_text_or_null(&rec.not_before));
    put_named(&mut members, "not_after", json_text_or_null(&rec.not_after));
    Certificate {
        value: to_decimal(rec.id),
        metadata: Json::Object(members),
        hosts: lines_of(rec.name_value.as_str()),
    }
}

fn read_certspotter(rec: &CertSpotterRecord) -> (r: Certificate)
    ensures
        r@ == certspotter_certificate(*rec),
{
    let issuer = match &rec.issuer {
        Some(i) => json_text_or_null(&i.name),
        None => Json::Null,
    };
    let mut members: Vec<(String, Json)> = Vec::new();
    put_named(&mut members, "issuer", issuer);
    put_named(&mut members, "not_before", json_text_or_null(&rec.not_before));
    put_named(&mut members, "not_after", json_text_or_null(&rec.not_after));
    put_named(&mut members, "fallback_source", Json::Text(copy_text("certspotter")));
    Certificate {
        value: rec.id.clone(),
        metadata: Json::Object(members),
        hosts: copy_texts(&rec.dns_names),
    }
}

/// The entities for what crt.sh answered about a domain.
pub fn crtsh_entities(domain: &Entity, records: &Vec<CrtShRecord>) -> (r: Vec<Entity>)
    ensures
        drafts(r@) == all_drafts(
            domain@,
            records@.map_values(|c: CrtShRecord| crtsh_certificate(c)),
            ids(r@),
        ),
        fresh(r@),
{
    let mut certs: Vec<Certificate> = Vec::new();
    let mut i: usize = 0;
    while i < records.len()
        invariant
            i <= records.len(),
            certs@.len() == i,
            forall|k: int| 0 <= k < i ==> (#[trigger] certs@[k])@ == crtsh_certificate(records@[k]),
        decreases records.len() - i,
    {
        certs.push(read_crtsh(&records[i]));
        i += 1;
    }
    assert(certificate_views(certs@) == records@.map_values(
        |c: CrtShRecord| crtsh_certificate(c),
    ));
    entities(domain, &certs)
}

/// The entities for what certspotter answered about a domain.
pub fn certspotter_entities(domain: &Entity, records: &Vec<CertSpotterRecord>) -> (r: Vec<Entity>)
    ensures
        drafts(r@) == all_drafts(
            domain@,
            records@.map_values(|c: CertSpotterRecord| certspotter_certificate(c)),
            ids(r@),
        ),
        fresh(r@),
{
    let mut certs: Vec<Certificate> = Vec::new();
    let mut i: usize = 0;
    while i < records.len()
        invariant
            i <= records.len(),
            certs@.len() == i,
            forall|k: int|
                0 <= k < i ==> (#[trigger] certs@[k])@ == certspotter_certificate(records@[k]),
        decreases records.len() - i,
    {
        certs.push(read_certspotter(&records[i]));
        i += 1;
    }
    assert(certificate_views(certs@) == records@.map_values(
        |c: CertSpotterRecord| certspotter_certificate(c),
    ));
    entities(domain, &certs)
}

/// The entities for the certificate that a domain presents, or a complaint if
/// it names no host.
pub fn live_entities(domain: &Entity, cert_der: &[u8]) -> (r: Result<Vec<Entity>, String>)
    ensures
        match r {
            Ok(es) => {
                &&& certificate_names(cert_der@).len() > 0
                &&& drafts(es@) == certificate_drafts(
                    domain@,
                    live_certificate(domain@.value, certificate_names(cert_der@)),
                    ids(es@),
                )
                &&& fresh(es@)
            },
            Err(m) => certificate_names(cert_der@).len() == 0 && m@
                == "certificate had no DNS SAN entries"@,
        },
{
    let names = extract_san_dns_names(cert_der);
    assert(texts(names@).len() == names@.len());
    if names.len() == 0 {
        return Err(copy_text("certificate had no DNS SAN entries"));
    }
    let mut value = copy_text("tls-live:");
    value.append(domain.value.as_str());
    let mut members: Vec<(String, Json)> = Vec::new();
    put_named(&mut members, "source_method", Json::Text(copy_text("live_tls_handshake")));
    let cert = Certificate { value, metadata: Json::Object(members), hosts: names };
    assert(cert@ == live_certificate(domain@.value, certificate_names(cert_der@)));
    Ok(certificate_entities(domain, &cert))
}

/// Where certificates are looked for.
#[derive(Debug, Clone, Copy, PartialEq, Eq, Structural)]
pub enum Source {
    CrtSh,
    CertSpotter,
    LiveTls,
}

impl Source {
    pub open spec fn label(self) -> Seq<char> {
        match self {
            Source::CrtSh => "crt.sh: "@,
            Source::CertSpotter => "certspotter: "@,
            Source::LiveTls => "live TLS: "@,
        }
    }
}

/// The source to ask after another: the second log aggregator only if the
/// first found nothing or failed, and the domain itself in any case, since its
/// certificate may not be logged yet.
pub open spec fn source_after(asked: Option<Source>, found_any: bool) -> Option<Source> {
    match asked {
        None => Some(Source::CrtSh),
        Some(Source::CrtSh) => if found_any {
            Some(Source::LiveTls)
        } else {
            Some(Source::CertSpotter)
        },
        Some(Source::CertSpotter) => Some(Source::LiveTls),
        Some(Source::LiveTls) => None,
    }
}

/// The search for the certificates of one domain: the source that was asked
/// last, what was found, and what went wrong.
pub struct Search {
    pub asked: Option<Source>,
    pub found: Vec<Entity>,
    pub errors: Vec<String>,
}

/// The mathematical model of a search.
pub struct SearchView {
    pub asked: Option<Source>,
    pub found: Seq<Entity>,
    pub errors: Seq<Seq<char>>,
}

impl View for Search {
    type V = SearchView;

    open spec fn view(&self) -> SearchView {
        SearchView { asked: self.asked, found: self.found@, errors: texts(self.errors@) }
    }
}

/// A search that has not asked any source.
pub open spec fn new_search() -> SearchView {
    SearchView { asked: None, found: Seq::empty(), errors: Seq::empty() }
}

impl SearchView {
    /// The source to ask next.
    pub open spec fn next_source(self) -> Option<Source> {
        source_after(self.asked, self.found.len() > 0)
    }

    /// The search after the answer of a source: the entities that it led to, or
    /// what went wrong.
    pub open spec fn after(self, source: Source, answer: Result<Seq<Entity>, Seq<char>>) -> SearchView {
        match answer {
            Ok(entities) => SearchView {
                asked: Some(source),
                found: self.found + entities,
                errors: self.errors,
            },
            Err(m) => SearchView {
                asked: Some(source),
                found: self.found,
                errors: self.errors.push(source.label() + m),
            },
        }
    }

    /// What the search comes to: it fails if no source led to anything.
    pub open spec fn result(self, domain: Seq<char>) -> Result<Seq<Entity>, ErrorView> {
        if self.found.len() > 0 {
            Ok(self.found)
        } else {
            Err(
                ErrorView::PluginExecution {
                    plugin: "certsh"@,
                    message: "all sources failed for '"@ + domain + "': "@ + join(
                        self.errors,
                        "; "@,
                    ),
                },
            )
        }
    }
}

impl Search {
    pub fn new() -> (r: Self)
        ensures
            r@ == new_search(),
    {
        let r = Search { asked: None, found: Vec::new(), errors: Vec::new() };
        assert(texts(r.errors@) == Seq::<Seq<char>>::empty());
        r
    }

    /// The source to ask next.
    pub fn next_source(&self) -> (r: Option<Source>)
        ensures
            r == self@.next_source(),
    {
        match self.asked {
            None => Some(Source::CrtSh),
            Some(Source::CrtSh) => if self.found.len() > 0 {
                Some(Source::LiveTls)
            } else {
                Some(Source::CertSpotter)
            },
            Some(Source::CertSpotter) => Some(Source::LiveTls),
            Some(Source::LiveTls) => None,
        }
    }

    /// Takes the entities that a source led to.
    pub fn succeeded(&mut self, source: Source, entities: Vec<Entity>)
        ensures
            final(self)@ == old(self)@.after(source, Ok(entities@)),
    {
        let mut more = entities;
        self.asked = Some(source);
        self.found.append(&mut more);
    }

    /// Takes the failure of a source.
    pub fn failed(&mut self, source: Source, message: &str)
        ensures
            final(self)@ == old(self)@.after(source, Err(message@)),
    {
        self.asked = Some(source);
        let mut m = copy_text(
            match source {
                Source::CrtSh => "crt.sh: ",
                Source::CertSpotter => "certspotter: ",
                Source::LiveTls => "live TLS: ",
            },
        );
        m.append(message);
        self.errors.push(m);
        assert(texts(self.errors@) == texts(old(self).errors@).push(source.label() + message@));
    }

    /// Ends the search: it fails if no source led to anything.
    pub fn finish(self, domain: &Entity) -> (r: Result<Vec<Entity>, Error>)
        ensures
            outcome_view(r) == self@.result(domain@.value),
    {
        if self.found.len() > 0 {
            return Ok(self.found);
        }
        let mut m = copy_text("all sources failed for '");
        m.append(domain.value.as_str());
        m.append("': ");
        m.append(join_texts(&self.errors, "; ").as_str());
        Err(plugin_failure("certsh", m))
    }
}

/// What an answer leads to.
pub open spec fn led_to(answer: Result<Seq<Entity>, Seq<char>>) -> Seq<Entity> {
    match answer {
        Ok(entities) => entities,
        Err(_) => Seq::empty(),
    }
}

/// What an answer adds to the errors.
pub open spec fn complaint(source: Source, answer: Result<Seq<Entity>, Seq<char>>) -> Seq<
    Seq<char>,
> {
    match answer {
        Ok(_) => Seq::empty(),
        Err(m) => seq![source.label() + m],
    }
}

/// A search whose sources are asked in turn.
pub open spec fn searched(
    first: Result<Seq<Entity>, Seq<char>>,
    second: Result<Seq<Entity>, Seq<char>>,
    live: Result<Seq<Entity>, Seq<char>>,
) -> SearchView {
    let s = new_search().after(Source::CrtSh, first);
    if s.next_source() == Some(Source::CertSpotter) {
        s.after(Source::CertSpotter, second).after(Source::LiveTls, live)
    } else {
        s.after(Source::LiveTls, live)
    }
}

/// Whatever the sources answer, a search keeps all that they led to, in the
/// order in which they were asked: the second log is asked only where the first
/// led to nothing. It fails only where all of them led to nothing, with what
/// went wrong with each.
pub proof fn law_a_search_keeps_what_its_sources_led_to(
    first: Result<Seq<Entity>, Seq<char>>,
    second: Result<Seq<Entity>, Seq<char>>,
    live: Result<Seq<Entity>, Seq<char>>,
    domain: Seq<char>,
)
    ensures
        searched(first, second, live).next_source() is None,
        led_to(first).len() > 0 ==> searched(first, second, live).result(domain) == Ok::<
            Seq<Entity>,
            ErrorView,
        >(led_to(first) + led_to(live)),
        led_to(first).len() == 0 && led_to(second) + led_to(live) != Seq::<Entity>::empty()
            ==> searched(first, second, live).result(domain) == Ok::<Seq<Entity>, ErrorView>(
            led_to(second) + led_to(live),
        ),
        searched(first, second, live).result(domain) is Err <==> led_to(first).len() == 0 && led_to(
            second,
        ).len() == 0 && led_to(live).len() == 0,
        searched(first, second, live).result(domain) is Err ==> searched(
            first,
            second,
            live,
        ).errors == complaint(Source::CrtSh, first) + complaint(Source::CertSpotter, second)
            + complaint(Source::LiveTls, live),
{
    let end = searched(first, second, live);
    if led_to(first).len() > 0 {
        assert(end.found =~= led_to(first) + led_to(live));
    } else {
        assert(end.found =~= led_to(second) + led_to(live));
        assert(end.errors =~= complaint(Source::CrtSh, first) + complaint(
            Source::CertSpotter,
            second,
        ) + complaint(Source::LiveTls, live));
    }
}

/// A search asks the first log, the second only if the first led to nothing,
/// and then always the domain itself; there it ends.
pub proof fn law_a_search_ends_with_the_domain(first: bool, second: bool)
    ensures
        source_after(None, false) == Some(Source::CrtSh),
        source_after(Some(Source::CrtSh), first) == Some(Source::CertSpotter) <==> !first,
        source_after(Some(Source::CrtSh), first) == Some(Source::LiveTls) <==> first,
        source_after(Some(Source::CertSpotter), second) == Some(Source::LiveTls),
        source_after(Some(Source::LiveTls), first || second) is None,
{
}

/// A host on a certificate is linked to that certificate; only another host
/// than the queried domain is linked to the domain, so that nothing is ever
/// linked to itself by name.
pub proof fn law_no_host_is_discovered_from_itself(
    host: Seq<char>,
    domain: EntityView,
    cert_id: u128,
)
    ensures
        host_draft(host, domain, cert_id).relations[0] == (RelationView {
            target: cert_id,
            kind: RelationKindView::HasCertificate,
        }),
        host_draft(host, domain, cert_id).relations.len() == if lower(host) == lower(domain.value) {
            1nat
        } else {
            2nat
        },
        host == domain.value ==> host_draft(host, domain, cert_id).entity_type
            == EntityType::Domain,
{
}

} // verus!
