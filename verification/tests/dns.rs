use explorator::dns_wire::{build_query, parse_response, read_name, RData, TYPE_A, TYPE_AAAA, TYPE_MX, TYPE_NS, TYPE_TXT};
use explorator::dnsx::{
    host_entities, nameserver_entries, record_type_from_str, record_types, resolvers, Inquiry,
    QueryIds,
};
use explorator::entity::{Entity, EntityType, RelationKind};
use explorator::json::Json;
use explorator::net::{IpAddr, Ipv4Addr, Ipv6Addr};
use explorator::plugin::PluginConfig;

const CLASS_IN: u16 = 1;

#[test]
fn builds_a_query_with_correct_header_and_question() {
    let packet = build_query(0x1234, "example.com", TYPE_A);
    assert_eq!(&packet[0..2], &[0x12, 0x34]); // id
    assert_eq!(&packet[2..4], &[0x01, 0x00]); // flags: RD
    assert_eq!(&packet[4..6], &[0x00, 0x01]); // qdcount = 1

    // question: 7"example"3"com"0
    let q = &packet[12..];
    assert_eq!(q[0], 7);
    assert_eq!(&q[1..8], b"example");
    assert_eq!(q[8], 3);
    assert_eq!(&q[9..12], b"com");
    assert_eq!(q[12], 0);
    let qtype = u16::from_be_bytes([q[13], q[14]]);
    assert_eq!(qtype, TYPE_A);
}

/// Response to a single-question "A" query with one A record, using a
/// compression pointer for the answer's name.
fn sample_a_response(id: u16) -> Vec<u8> {
    let mut buf = question_part(id, 0x8180, 1);
    push_answer(&mut buf, TYPE_A, &[93, 184, 216, 34]);
    buf
}

fn question_part(id: u16, flags: u16, answers: u16) -> Vec<u8> {
    let mut buf = Vec::new();
    buf.extend_from_slice(&id.to_be_bytes());
    buf.extend_from_slice(&flags.to_be_bytes());
    buf.extend_from_slice(&1u16.to_be_bytes()); // qdcount
    buf.extend_from_slice(&answers.to_be_bytes());
    buf.extend_from_slice(&0u16.to_be_bytes());
    buf.extend_from_slice(&0u16.to_be_bytes());

    // question: example.com A IN
    buf.push(7);
    buf.extend_from_slice(b"example");
    buf.push(3);
    buf.extend_from_slice(b"com");
    buf.push(0);
    buf.extend_from_slice(&TYPE_A.to_be_bytes());
    buf.extend_from_slice(&CLASS_IN.to_be_bytes());
    buf
}

fn push_answer(buf: &mut Vec<u8>, rtype: u16, rdata: &[u8]) {
    // name = pointer to offset 12
    buf.extend_from_slice(&0xC00Cu16.to_be_bytes());
    buf.extend_from_slice(&rtype.to_be_bytes());
    buf.extend_from_slice(&CLASS_IN.to_be_bytes());
    buf.extend_from_slice(&300u32.to_be_bytes());
    buf.extend_from_slice(&(rdata.len() as u16).to_be_bytes());
    buf.extend_from_slice(rdata);
}

#[test]
fn parses_a_record_with_name_compression() {
    let id = 0xBEEF;
    let response = sample_a_response(id);
    let records = parse_response(&response, id).expect("should parse");
    assert_eq!(records.len(), 1);
    match &records[0].rdata {
        RData::A(ip) => assert_eq!(*ip, Ipv4Addr::new(93, 184, 216, 34)),
        other => panic!("expected A record, got {other:?}"),
    }
}

#[test]
fn rejects_mismatched_transaction_id() {
    let response = sample_a_response(0xBEEF);
    assert!(parse_response(&response, 0xDEAD).is_none());
}

#[test]
fn nxdomain_yields_empty_records_not_none() {
    let mut buf = Vec::new();
    buf.extend_from_slice(&1u16.to_be_bytes());
    buf.extend_from_slice(&0x8183u16.to_be_bytes()); // rcode 3 = NXDOMAIN
    buf.extend_from_slice(&[0, 0, 0, 0, 0, 0, 0, 0]);
    let records = parse_response(&buf, 1).expect("should still parse header");
    assert!(records.is_empty());
}

#[test]
fn reads_every_kind_of_record() {
    let mut buf = question_part(7, 0x8180, 5);
    let mut mx = vec![0, 10, 4];
    mx.extend_from_slice(b"mail");
    mx.extend_from_slice(&[0xC0, 0x0C]);
    push_answer(&mut buf, TYPE_MX, &mx);
    push_answer(&mut buf, TYPE_NS, &[2, b'n', b's', 0xC0, 0x0C]);
    push_answer(&mut buf, TYPE_TXT, &[2, b'h', b'i', 3, b'y', b'o', b'u']);
    push_answer(
        &mut buf,
        TYPE_AAAA,
        &[0x20, 0x01, 0x0d, 0xb8, 0, 0, 0, 0, 0, 0, 0, 0, 0, 0, 0, 1],
    );
    push_answer(&mut buf, 99, &[1, 2, 3]);
    let records = parse_response(&buf, 7).unwrap();
    assert_eq!(records.len(), 5);
    match &records[0].rdata {
        RData::Mx { preference, exchange } => {
            assert_eq!(*preference, 10);
            assert_eq!(exchange, "mail.example.com");
        }
        other => panic!("expected MX record, got {other:?}"),
    }
    match &records[1].rdata {
        RData::Ns(name) => assert_eq!(name, "ns.example.com"),
        other => panic!("expected NS record, got {other:?}"),
    }
    match &records[2].rdata {
        RData::Txt(text) => assert_eq!(text, "hiyou"),
        other => panic!("expected TXT record, got {other:?}"),
    }
    match &records[3].rdata {
        RData::Aaaa(ip) => assert_eq!(ip.to_string(), "2001:db8::1"),
        other => panic!("expected AAAA record, got {other:?}"),
    }
    assert!(matches!(records[4].rdata, RData::Other));
}

#[test]
fn a_query_is_no_answer_with_records() {
    let query = build_query(3, "example.com", TYPE_A);
    assert!(parse_response(&query, 3).unwrap().is_empty());
    assert!(parse_response(&query, 4).is_none());
    assert!(parse_response(&query[..11], 3).is_none());
}

#[test]
fn a_response_that_breaks_off_keeps_what_was_read() {
    let mut response = question_part(1, 0x8180, 2);
    push_answer(&mut response, TYPE_A, &[192, 0, 2, 1]);
    push_answer(&mut response, TYPE_A, &[192, 0, 2, 2]);
    assert_eq!(parse_response(&response, 1).unwrap().len(), 2);
    assert_eq!(parse_response(&response[..response.len() - 1], 1).unwrap().len(), 1);
    assert!(parse_response(&response[..20], 1).is_none());
}

#[test]
fn a_pointer_to_itself_is_no_name() {
    assert!(read_name(&[0xC0, 0x00], 0).is_none());
    let (name, end) = read_name(&[3, b'a', 0xFF, b'b', 0, 9], 0).unwrap();
    assert_eq!(name, "a\u{FFFD}b");
    assert_eq!(end, 5);
}

#[test]
fn reads_record_types_in_any_case() {
    assert_eq!(record_type_from_str("a"), Some(1));
    assert_eq!(record_type_from_str("Aaaa"), Some(28));
    assert_eq!(record_type_from_str("CNAME"), Some(5));
    assert_eq!(record_type_from_str("mx"), Some(15));
    assert_eq!(record_type_from_str("txt"), Some(16));
    assert_eq!(record_type_from_str("NS"), Some(2));
    assert_eq!(record_type_from_str("SOA"), None);
}

fn text(s: &str) -> Json {
    Json::Text(s.to_string())
}

#[test]
fn asks_for_configured_record_types_or_addresses() {
    let config = PluginConfig(Json::Object(vec![(
        "record_types".to_string(),
        Json::Array(vec![text("MX"), Json::Bool(true), text("SOA"), text("a")]),
    )]));
    assert_eq!(record_types(&config), vec![15, 1]);
    let useless = PluginConfig(Json::Object(vec![(
        "record_types".to_string(),
        Json::Array(vec![text("SOA")]),
    )]));
    assert_eq!(record_types(&useless), vec![1]);
    assert_eq!(record_types(&PluginConfig::default()), vec![1]);
}

#[test]
fn a_host_is_linked_to_its_addresses() {
    let host = Entity::new(EntityType::Subdomain, "www.example.com", "seed");
    let mut buf = question_part(7, 0x8180, 3);
    push_answer(&mut buf, TYPE_A, &[192, 0, 2, 1]);
    push_answer(&mut buf, TYPE_NS, &[2, b'n', b's', 0]);
    push_answer(&mut buf, TYPE_A, &[192, 0, 2, 2]);
    let records = parse_response(&buf, 7).unwrap();
    let found = host_entities(&host, &records);
    assert_eq!(found.len(), 3);
    assert_eq!(found[0].entity_type, EntityType::IpAddress);
    assert_eq!(found[0].value, "192.0.2.1");
    assert_eq!(found[1].value, "192.0.2.2");
    assert_eq!(found[2].entity_type, EntityType::Subdomain);
    assert_eq!(found[2].value, "www.example.com");
    assert_eq!(found[2].source, "dnsx");
    assert_eq!(found[2].relations.len(), 2);
    assert_eq!(found[2].relations[0].target, found[0].id);
    assert_eq!(found[2].relations[1].target, found[1].id);
    assert_eq!(found[2].relations[0].kind, RelationKind::ResolvesTo);
    assert_eq!(
        found[2].metadata.get("ns"),
        Some(&Json::Array(vec![text("ns")]))
    );
    assert_eq!(found[2].metadata.get("mx"), Some(&Json::Array(vec![])));
    assert!(host_entities(&host, &Vec::new()).is_empty());
}

#[test]
fn query_ids_wrap_around() {
    let mut ids = QueryIds::new();
    assert_eq!(ids.next_query_id(), 0);
    assert_eq!(ids.next_query_id(), 1);
    let mut last = QueryIds { next: 65535 };
    assert_eq!(last.next_query_id(), 65535);
    assert_eq!(last.next_query_id(), 0);
}

#[test]
fn lists_name_servers_of_a_resolver_file() {
    let contents = "# comment\n  nameserver 192.0.2.53 \nsearch example.com\nnameserver\t2001:db8::1\r\nnameservers\n";
    assert_eq!(
        nameserver_entries(contents),
        vec!["192.0.2.53", "2001:db8::1", "s"]
    );
    assert!(nameserver_entries("").is_empty());
}

#[test]
fn falls_back_to_public_resolvers() {
    let own = IpAddr::V6(Ipv6Addr { segments: [0, 0, 0, 0, 0, 0, 0, 1] });
    assert_eq!(resolvers(&vec![None, Some(own), None]), vec![own]);
    assert_eq!(
        resolvers(&vec![None]),
        vec![
            IpAddr::V4(Ipv4Addr::new(1, 1, 1, 1)),
            IpAddr::V4(Ipv4Addr::new(8, 8, 8, 8)),
        ]
    );
}

#[test]
fn addresses_are_written_in_the_shortest_form() {
    assert_eq!(Ipv4Addr::new(192, 0, 2, 255).to_string(), "192.0.2.255");
    let ip = |segments: [u16; 8]| Ipv6Addr { segments }.to_string();
    assert_eq!(ip([0; 8]), "::");
    assert_eq!(ip([0, 0, 0, 0, 0, 0, 0, 1]), "::1");
    assert_eq!(ip([1, 0, 0, 0, 0, 0, 0, 0]), "1::");
    assert_eq!(ip([0x2001, 0xdb8, 0, 1, 1, 1, 1, 1]), "2001:db8:0:1:1:1:1:1");
    assert_eq!(ip([0x2001, 0, 0, 1, 0, 0, 0, 1]), "2001:0:0:1::1");
    assert_eq!(ip([0, 0, 0, 0, 0, 0xffff, 0xc000, 0x0201]), "::ffff:192.0.2.1");
}

#[test]
fn no_more_records_are_read_than_announced() {
    let mut response = question_part(1, 0x8180, 1);
    push_answer(&mut response, TYPE_A, &[192, 0, 2, 1]);
    push_answer(&mut response, TYPE_A, &[192, 0, 2, 2]);
    assert_eq!(parse_response(&response, 1).unwrap().len(), 1);
}

#[test]
fn servers_are_asked_until_one_answers() {
    let server = |d: u8| IpAddr::V4(Ipv4Addr::new(192, 0, 2, d));
    let servers = vec![server(1), server(2), server(3), server(4)];
    let mut inquiry = Inquiry::new(&servers);
    assert_eq!(inquiry.next_server(), Some(server(1)));
    inquiry.take(5, None);
    assert_eq!(inquiry.next_server(), Some(server(2)));
    inquiry.take(6, Some(&sample_a_response(5)));
    assert_eq!(inquiry.next_server(), Some(server(3)), "a reply to another query is no answer");
    inquiry.take(7, Some(&sample_a_response(7)));
    assert_eq!(inquiry.next_server(), None, "the first answer counts");
    assert_eq!(inquiry.finish().len(), 1);

    let mut silent = Inquiry::new(&vec![server(1)]);
    silent.take(1, None);
    assert_eq!(silent.next_server(), None);
    assert!(silent.finish().is_empty());
}
