use explorator::certsh::{
    certspotter_entities, crtsh_entities, host_entity, live_entities, CertSpotterIssuer,
    CertSpotterRecord, CrtShRecord, Search, Source,
};
use explorator::entity::{Entity, EntityType, RelationKind};
use explorator::error::Error;
use explorator::json::Json;
use explorator::x509::extract_san_dns_names;

const SAN_OID: [u8; 3] = [0x55, 0x1D, 0x11];

fn tlv(tag: u8, value: &[u8]) -> Vec<u8> {
    let mut out = vec![tag];
    assert!(value.len() < 128, "test helper only supports short-form lengths");
    out.push(value.len() as u8);
    out.extend_from_slice(value);
    out
}

fn build_test_cert(dns_names: &[&str]) -> Vec<u8> {
    let general_names: Vec<u8> = dns_names.iter().flat_map(|n| tlv(0x82, n.as_bytes())).collect();
    let san_octet_string = tlv(0x04, &tlv(0x30, &general_names));

    let mut extension_body = tlv(0x06, &SAN_OID);
    extension_body.extend(san_octet_string);
    let extension = tlv(0x30, &extension_body);

    let extensions_seq = tlv(0x30, &extension);
    let extensions_wrapper = tlv(0xA3, &extensions_seq);

    // A handful of dummy TBSCertificate fields ahead of Extensions, to prove
    // the parser skips unrelated siblings correctly.
    let serial = tlv(0x02, &[0x01]);
    let signature_alg = tlv(0x30, &[]);
    let issuer = tlv(0x30, &[]);
    let validity = tlv(0x30, &[]);
    let subject = tlv(0x30, &[]);
    let spki = tlv(0x30, &[]);

    let mut tbs_body = Vec::new();
    tbs_body.extend(serial);
    tbs_body.extend(signature_alg);
    tbs_body.extend(issuer);
    tbs_body.extend(validity);
    tbs_body.extend(subject);
    tbs_body.extend(spki);
    tbs_body.extend(extensions_wrapper);

    let tbs = tlv(0x30, &tbs_body);
    tlv(0x30, &tbs)
}

#[test]
fn extracts_multiple_dns_names() {
    let cert = build_test_cert(&["example.com", "www.example.com"]);
    let names = extract_san_dns_names(&cert);
    assert_eq!(names, vec!["example.com".to_string(), "www.example.com".to_string()]);
}

#[test]
fn returns_empty_for_no_san_extension() {
    let tbs = tlv(0x30, &tlv(0x02, &[0x01]));
    let cert = tlv(0x30, &tbs);
    assert!(extract_san_dns_names(&cert).is_empty());
}

#[test]
fn returns_empty_for_garbage_input() {
    assert!(extract_san_dns_names(&[0xFF, 0x01]).is_empty());
    assert!(extract_san_dns_names(&[]).is_empty());
}

#[test]
fn names_that_are_no_text_are_passed_over() {
    let mut general_names = tlv(0x82, &[0xFF, 0xFE]);
    general_names.extend(tlv(0x87, &[192, 0, 2, 1]));
    general_names.extend(tlv(0x82, b"a.example.com"));
    let mut body = tlv(0x06, &SAN_OID);
    body.extend(tlv(0x01, &[0xFF]));
    body.extend(tlv(0x04, &tlv(0x30, &general_names)));
    let wrapper = tlv(0xA3, &tlv(0x30, &tlv(0x30, &body)));
    let cert = tlv(0x30, &tlv(0x30, &wrapper));
    assert_eq!(extract_san_dns_names(&cert), vec!["a.example.com"]);
}

fn domain() -> Entity {
    Entity::new(EntityType::Domain, "example.com", "seed")
}

#[test]
fn the_queried_domain_is_not_linked_to_itself() {
    let d = domain();
    let root = host_entity("Example.COM", &d, 7);
    assert_eq!(root.entity_type, EntityType::Domain);
    assert_eq!(root.value, "Example.COM");
    assert_eq!(root.relations.len(), 1);
    assert_eq!(root.relations[0].target, 7);
    assert_eq!(root.relations[0].kind, RelationKind::HasCertificate);
    let sub = host_entity("*.example.com", &d, 7);
    assert_eq!(sub.entity_type, EntityType::Subdomain);
    assert_eq!(sub.metadata.get("wildcard"), Some(&Json::Bool(true)));
    assert_eq!(sub.relations.len(), 2);
    assert_eq!(sub.relations[1].target, d.id);
    assert_eq!(sub.relations[1].kind, RelationKind::DiscoveredFrom);
}

#[test]
fn crtsh_records_become_certificates_and_hosts() {
    let d = domain();
    let record = CrtShRecord {
        id: 12345,
        name_value: "example.com\n  www.example.com \n\n".to_string(),
        issuer_name: Some("CA".to_string()),
        not_before: None,
        not_after: None,
    };
    let other = CrtShRecord {
        id: 0,
        name_value: "api.example.com".to_string(),
        issuer_name: None,
        not_before: None,
        not_after: Some("2030".to_string()),
    };
    let found = crtsh_entities(&d, &vec![record, other]);
    let values: Vec<&str> = found.iter().map(|e| e.value.as_str()).collect();
    assert_eq!(values, vec!["12345", "example.com", "www.example.com", "0", "api.example.com"]);
    assert_eq!(found[0].entity_type, EntityType::Certificate);
    assert_eq!(found[0].metadata.get("issuer"), Some(&Json::Text("CA".to_string())));
    assert_eq!(found[0].metadata.get("not_before"), Some(&Json::Null));
    assert_eq!(found[2].relations[0].target, found[0].id);
    assert_eq!(found[4].relations[0].target, found[3].id);
}

#[test]
fn certspotter_records_name_their_source() {
    let d = domain();
    let record = CertSpotterRecord {
        id: "abc".to_string(),
        dns_names: vec!["www.example.com".to_string()],
        not_before: Some("2020".to_string()),
        not_after: None,
        issuer: Some(CertSpotterIssuer { name: None }),
    };
    let found = certspotter_entities(&d, &vec![record]);
    assert_eq!(found.len(), 2);
    assert_eq!(found[0].value, "abc");
    assert_eq!(found[0].metadata.get("issuer"), Some(&Json::Null));
    assert_eq!(
        found[0].metadata.get("fallback_source"),
        Some(&Json::Text("certspotter".to_string()))
    );
    assert_eq!(found[1].relations[0].target, found[0].id);
}

#[test]
fn a_presented_certificate_must_name_hosts() {
    let d = domain();
    let found = live_entities(&d, &build_test_cert(&["example.com", "www.example.com"])).unwrap();
    assert_eq!(found.len(), 3);
    assert_eq!(found[0].value, "tls-live:example.com");
    assert_eq!(
        found[0].metadata.get("source_method"),
        Some(&Json::Text("live_tls_handshake".to_string()))
    );
    assert_eq!(found[1].entity_type, EntityType::Domain);
    assert_eq!(
        live_entities(&d, &[]).unwrap_err(),
        "certificate had no DNS SAN entries"
    );
}

#[test]
fn a_search_fails_only_if_nothing_was_found() {
    let d = domain();
    let mut search = Search::new();
    assert_eq!(search.next_source(), Some(Source::CrtSh));
    search.failed(Source::CrtSh, "HTTP 502");
    assert_eq!(search.next_source(), Some(Source::CertSpotter));
    search.succeeded(Source::CertSpotter, vec![]);
    assert_eq!(search.next_source(), Some(Source::LiveTls));
    search.failed(Source::LiveTls, "connection timed out");
    assert_eq!(search.next_source(), None);
    match search.finish(&d) {
        Err(Error::PluginExecution { plugin, message }) => {
            assert_eq!(plugin, "certsh");
            assert_eq!(
                message,
                "all sources failed for 'example.com': crt.sh: HTTP 502; live TLS: connection timed out"
            );
        }
        _ => panic!("expected a failure"),
    }
    let mut lucky = Search::new();
    lucky.succeeded(Source::CrtSh, vec![Entity::new(EntityType::Subdomain, "a.com", "certsh")]);
    assert_eq!(lucky.next_source(), Some(Source::LiveTls), "no fallback is needed");
    lucky.failed(Source::LiveTls, "late");
    assert_eq!(lucky.finish(&d).unwrap().len(), 1);
}

#[test]
fn a_search_keeps_what_its_sources_led_to() {
    let d = domain();
    let mut search = Search::new();
    search.succeeded(Source::CrtSh, vec![]);
    search.succeeded(
        Source::CertSpotter,
        vec![
            Entity::new(EntityType::Subdomain, "a.com", "certsh"),
            Entity::new(EntityType::Subdomain, "b.com", "certsh"),
        ],
    );
    search.succeeded(
        Source::LiveTls,
        vec![Entity::new(EntityType::Subdomain, "c.com", "certsh")],
    );
    let found = search.finish(&d).unwrap();
    let values: Vec<&str> = found.iter().map(|e| e.value.as_str()).collect();
    assert_eq!(values, vec!["a.com", "b.com", "c.com"]);
}
