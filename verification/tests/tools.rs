use explorator::entity::{Entity, EntityType, RelationKind};
use explorator::error::Error;
use explorator::gather::gather;
use explorator::graph::EntityGraph;
use explorator::httpx::{self, extract_title, page, probes, timeout_secs, Reply};
use explorator::json::Json;
use explorator::katana::{self, KatanaLine, KatanaRequest, KatanaResponse};
use explorator::nuclei::{self, NucleiInfo, NucleiLine};
use explorator::plugin::PluginConfig;
use explorator::portscan::{self, likely_service};
use explorator::subfinder::{self, SubfinderLine};
use explorator::tool::{choose_targets, lines_of, output_lines, ToolOutput};
use explorator::whois::{self, extract_field, find_referral, Lookup};
use serde_json::Value;

#[test]
fn extracts_simple_title() {
    let html = "<html><head><title>Example Domain</title></head><body></body></html>";
    assert_eq!(extract_title(html), Some("Example Domain".to_string()));
}

#[test]
fn extracts_title_with_attributes_and_mixed_case() {
    let html = "<HTML><HEAD><TiTle class=\"x\">  Mixed Case  </TiTle></HEAD></HTML>";
    assert_eq!(extract_title(html), Some("Mixed Case".to_string()));
}

#[test]
fn returns_none_for_missing_title() {
    let html = "<html><body>no title here</body></html>";
    assert_eq!(extract_title(html), None);
}

#[test]
fn returns_none_for_empty_title() {
    let html = "<title>   </title>";
    assert_eq!(extract_title(html), None);
}

#[test]
fn a_title_needs_its_end() {
    assert_eq!(extract_title("<title>open"), None);
    assert_eq!(extract_title("<title"), None);
    assert_eq!(extract_title("ä<title>ü</TITLE>"), Some("ü".to_string()));
}

#[test]
fn maps_well_known_ports_to_service_names() {
    assert_eq!(likely_service(443), Some("https"));
    assert_eq!(likely_service(65000), None);
}

#[test]
fn extracts_known_fields_case_insensitively() {
    let text = "Domain Name: EXAMPLE.COM\nregistrar: Example Registrar Inc.\nCreation Date: 1995-08-14T04:00:00Z\n";
    assert_eq!(extract_field(text, &["Registrar:"]), Some("Example Registrar Inc.".to_string()));
    assert_eq!(
        extract_field(text, &["Creation Date:"]),
        Some("1995-08-14T04:00:00Z".to_string())
    );
    assert_eq!(extract_field(text, &["Registry Expiry Date:"]), None);
}

#[test]
fn finds_referral_server() {
    let text = "refer: whois.verisign-grs.com\nsomething: else\n";
    assert_eq!(find_referral(text), Some("whois.verisign-grs.com".to_string()));
}

#[test]
fn no_referral_returns_none() {
    let text = "Domain Name: EXAMPLE.COM\nRegistrar: Example Registrar Inc.\n";
    assert_eq!(find_referral(text), None);
}

#[test]
fn referrals_lose_their_scheme() {
    assert_eq!(
        find_referral("ReferralServer:  whois://whois.ripe.net/ \n"),
        Some("whois.ripe.net".to_string())
    );
    assert_eq!(find_referral("refer:\nwhois: b\n"), Some("b".to_string()));
    assert_eq!(extract_field("CIDR::  10.0.0.0/8", &["x", "CIDR:"]), Some("10.0.0.0/8".to_string()));
}

#[test]
fn a_lookup_follows_three_referrals() {
    let ip = Entity::new(EntityType::IpAddress, "192.0.2.1", "seed");
    assert_eq!(Lookup::new(&ip).server, "whois.arin.net");
    let domain = Entity::new(EntityType::Domain, "example.com", "seed");
    let mut lookup = Lookup::new(&domain);
    assert_eq!(lookup.server, "whois.iana.org");
    assert!(lookup.goes_on("refer: a"));
    assert_eq!(lookup.server, "a");
    assert!(lookup.goes_on("refer: b"));
    assert!(lookup.goes_on("refer: c"));
    assert_eq!(lookup.server, "c");
    assert!(!lookup.goes_on("refer: d"));
    assert_eq!(lookup.server, "c");
    let mut same = Lookup::new(&domain);
    assert!(!same.goes_on("refer: whois.iana.org"));
    let mut none = Lookup::new(&domain);
    assert!(!none.goes_on("nothing"));
    assert_eq!(
        none.failure("refused").to_string(),
        "plugin 'whois' failed: whois.iana.org: refused"
    );
    assert_eq!(whois::question("example.com"), "example.com\r\n");
}

fn text(s: &str) -> Json {
    Json::Text(s.to_string())
}

#[test]
fn an_answer_links_an_entity_to_its_network() {
    let ip = Entity::new(EntityType::IpAddress, "192.0.2.1", "seed");
    let answer = "OrgName: Example\r\nCIDR: 192.0.2.0/24\r\nOriginAS: AS64500\r\n";
    let found = whois::entities(&ip, answer);
    assert_eq!(found.len(), 3);
    assert_eq!(found[0].entity_type, EntityType::Cidr);
    assert_eq!(found[0].value, "192.0.2.0/24");
    assert_eq!(found[1].entity_type, EntityType::Asn);
    assert_eq!(found[1].value, "AS64500");
    assert_eq!(found[2].value, "192.0.2.1");
    assert_eq!(found[2].relations.len(), 2);
    assert_eq!(found[2].relations[0].target, found[0].id);
    assert_eq!(found[2].relations[0].kind, RelationKind::BelongsToCidr);
    assert_eq!(found[2].relations[1].target, found[1].id);
    assert_eq!(found[2].metadata.get("registrar"), Some(&text("Example")));
    assert_eq!(found[2].metadata.get("created"), Some(&Json::Null));
    let only = whois::entities(&ip, "origin: AS1");
    assert_eq!(only.len(), 2);
    assert_eq!(only[1].relations[0].target, only[0].id);
    assert_eq!(only[1].relations[0].kind, RelationKind::BelongsToAsn);
    assert_eq!(whois::entities(&ip, "").len(), 1);
    assert_eq!(
        whois::targets(),
        vec![EntityType::Domain, EntityType::Subdomain, EntityType::IpAddress]
    );
}

fn string(v: &Value, key: &str) -> Option<String> {
    v.get(key).and_then(|s| s.as_str()).map(|s| s.to_string())
}

fn katana_line(json: &str) -> KatanaLine {
    let v: Value = serde_json::from_str(json).unwrap();
    KatanaLine {
        endpoint: string(&v, "endpoint"),
        source: string(&v, "source"),
        tag: string(&v, "tag"),
        attribute: string(&v, "attribute"),
        request: v.get("request").map(|r| KatanaRequest {
            endpoint: string(r, "endpoint"),
            method: string(r, "method"),
        }),
        response: None,
    }
}

#[test]
fn resolves_endpoint_from_top_level_field() {
    let line = katana_line(
        r#"{"endpoint":"https://example.com/page","source":"https://example.com","tag":"a"}"#,
    );
    assert_eq!(line.resolved_endpoint(), Some("https://example.com/page".to_string()));
}

#[test]
fn resolves_endpoint_from_nested_request_field() {
    let line = katana_line(
        r#"{"source":"https://example.com","request":{"endpoint":"https://example.com/nested","method":"GET"}}"#,
    );
    assert_eq!(line.resolved_endpoint(), Some("https://example.com/nested".to_string()));
}

#[test]
fn returns_none_when_no_endpoint_present() {
    let line = katana_line(r#"{"source":"https://example.com"}"#);
    assert_eq!(line.resolved_endpoint(), None);
}

fn object(members: Vec<(&str, Json)>) -> PluginConfig {
    PluginConfig(Json::Object(members.into_iter().map(|(k, v)| (k.to_string(), v)).collect()))
}

fn args(plan: Result<Vec<explorator::tool::Invocation>, Error>) -> Vec<(usize, Vec<String>)> {
    match plan {
        Ok(calls) => calls.into_iter().map(|c| (c.target, c.args)).collect(),
        Err(_) => panic!("expected a plan"),
    }
}

fn is_missing<T>(plan: Result<T, Error>, name: &str) -> bool {
    match plan {
        Err(Error::MissingBinary { plugin, binary }) => plugin == name && binary == name,
        _ => false,
    }
}

#[test]
fn katana_empty_input_produces_no_results() {
    let domain = Entity::new(EntityType::Domain, "example.com", "seed");
    let config = PluginConfig::default();
    assert!(args(katana::plan(&vec![domain], &config, false)).is_empty());
}

#[test]
fn katana_crawls_every_url() {
    let input = vec![
        Entity::new(EntityType::Url, "http://a", "x"),
        Entity::new(EntityType::Domain, "d", "x"),
        Entity::new(EntityType::Url, "http://b", "x"),
    ];
    let config = PluginConfig::default();
    assert!(is_missing(katana::plan(&input, &config, false), "katana"));
    assert_eq!(
        args(katana::plan(&input, &config, true)),
        vec![
            (0, vec!["-u", "http://a", "-d", "3", "-jsonl", "-silent"].iter().map(|s| s.to_string()).collect()),
            (2, vec!["-u", "http://b", "-d", "3", "-jsonl", "-silent"].iter().map(|s| s.to_string()).collect()),
        ]
    );
    let deep = object(vec![("depth", Json::PosInt(10)), ("js_crawl", Json::Bool(true))]);
    assert_eq!(
        args(katana::plan(&input, &deep, true))[0].1,
        vec!["-u", "http://a", "-d", "10", "-jsonl", "-silent", "-jc"]
    );
}

#[test]
fn katana_findings_become_endpoints() {
    let seed = Entity::new(EntityType::Url, "http://a", "x");
    let line = KatanaLine {
        endpoint: Some("http://a/x".to_string()),
        source: None,
        tag: Some("a".to_string()),
        attribute: None,
        request: Some(KatanaRequest { endpoint: None, method: Some("GET".to_string()) }),
        response: Some(KatanaResponse { status_code: Some(200), technologies: vec!["nginx".to_string()] }),
    };
    let nowhere = katana_line(r#"{"source":"https://example.com"}"#);
    let found = katana::entities(&seed, &vec![None, Some(line), Some(nowhere)]);
    assert_eq!(found.len(), 1);
    assert_eq!(found[0].entity_type, EntityType::Endpoint);
    assert_eq!(found[0].value, "http://a/x");
    assert_eq!(found[0].metadata.get("source"), Some(&Json::Null));
    assert_eq!(found[0].metadata.get("tag"), Some(&text("a")));
    assert_eq!(found[0].metadata.get("method"), Some(&text("GET")));
    assert_eq!(found[0].metadata.get("status_code"), Some(&Json::PosInt(200)));
    assert_eq!(found[0].metadata.get("technologies"), Some(&Json::Array(vec![text("nginx")])));
    assert_eq!(found[0].relations[0].target, seed.id);
    assert_eq!(found[0].relations[0].kind, RelationKind::DiscoveredFrom);
}

#[test]
fn nuclei_empty_input_produces_no_results() {
    let domain = Entity::new(EntityType::Domain, "example.com", "seed");
    let config = PluginConfig::default();
    assert!(args(nuclei::plan(&vec![domain], &config, false)).is_empty());
}

#[test]
fn nuclei_passes_severity_and_tags_on() {
    let input = vec![Entity::new(EntityType::Url, "http://a", "x")];
    assert!(is_missing(nuclei::plan(&input, &PluginConfig::default(), false), "nuclei"));
    let config = object(vec![
        ("severity", Json::Array(vec![text("high"), Json::Null, text("critical")])),
        ("tags", Json::Array(vec![])),
    ]);
    assert_eq!(
        args(nuclei::plan(&input, &config, true))[0].1,
        vec!["-u", "http://a", "-jsonl", "-silent", "-severity", "high,critical", "-tags", ""]
    );
    assert_eq!(
        args(nuclei::plan(&input, &PluginConfig::default(), true))[0].1,
        vec!["-u", "http://a", "-jsonl", "-silent"]
    );
}

fn nuclei_line(template_id: Option<&str>, matched_at: Option<&str>) -> NucleiLine {
    NucleiLine {
        template_id: template_id.map(|s| s.to_string()),
        info: Some(NucleiInfo {
            name: Some("Tech Detect".to_string()),
            severity: Some("info".to_string()),
            tags: vec!["tech".to_string()],
            description: None,
        }),
        host: Some("https://example.com".to_string()),
        matched_at: matched_at.map(|s| s.to_string()),
        ip: None,
        extracted_results: vec![],
    }
}

#[test]
fn nuclei_findings_become_vulnerabilities() {
    let seed = Entity::new(EntityType::Url, "http://a", "x");
    let found = nuclei::entities(
        &seed,
        &vec![
            Some(nuclei_line(Some("tech-detect"), Some("http://a/x"))),
            Some(nuclei_line(None, None)),
            None,
            Some(nuclei_line(Some("t"), None)),
        ],
    );
    assert_eq!(found.len(), 2);
    assert_eq!(found[0].entity_type, EntityType::Vulnerability);
    assert_eq!(found[0].value, "tech-detect@http://a/x");
    assert_eq!(found[0].metadata.get("severity"), Some(&text("info")));
    assert_eq!(found[0].metadata.get("tags"), Some(&Json::Array(vec![text("tech")])));
    assert_eq!(found[0].metadata.get("matched_at"), Some(&text("http://a/x")));
    assert_eq!(found[0].relations[0].kind, RelationKind::HasVulnerability);
    assert_eq!(found[1].value, "t@http://a");
    assert_eq!(found[1].metadata.get("ip"), Some(&Json::Null));
}

#[test]
fn subfinder_asks_about_every_domain() {
    let input = vec![
        Entity::new(EntityType::Subdomain, "s", "x"),
        Entity::new(EntityType::Domain, "example.com", "x"),
    ];
    assert!(is_missing(subfinder::plan(&Vec::new(), &PluginConfig::default(), false), "subfinder"));
    let all = object(vec![("all", Json::Bool(true))]);
    let calls = args(subfinder::plan(&input, &all, true));
    assert_eq!(calls.len(), 1);
    assert_eq!(calls[0].0, 1);
    assert_eq!(calls[0].1, vec!["-d", "example.com", "-json", "-silent", "-all"]);
    assert_eq!(
        args(subfinder::plan(&input, &PluginConfig::default(), true))[0].1,
        vec!["-d", "example.com", "-json", "-silent"]
    );
}

#[test]
fn subfinder_findings_become_subdomains() {
    let domain = Entity::new(EntityType::Domain, "example.com", "x");
    let line = |host: &str, source: Option<&str>| {
        Some(SubfinderLine { host: host.to_string(), source: source.map(|s| s.to_string()) })
    };
    let found = subfinder::entities(
        &domain,
        &vec![line("a.example.com", Some("crtsh")), None, line("b.example.com", None)],
    );
    assert_eq!(found.len(), 2);
    assert_eq!(found[0].value, "a.example.com");
    assert_eq!(found[0].source, "subfinder");
    assert_eq!(found[0].metadata.get("discovery_source"), Some(&text("crtsh")));
    assert_eq!(found[1].metadata.get("discovery_source"), Some(&text("subfinder")));
    assert_eq!(found[1].relations[0].target, domain.id);
}

#[test]
fn tool_output_is_read_line_by_line() {
    let good = ToolOutput {
        success: true,
        stdout: b"  one \r\n\n\t\ntwo\xFF\n".to_vec(),
        stderr: Vec::new(),
    };
    assert_eq!(output_lines("p", &good).ok().unwrap(), vec!["one", "two\u{FFFD}"]);
    let bad = ToolOutput { success: false, stdout: b"x".to_vec(), stderr: b" no \n".to_vec() };
    match output_lines("p", &bad) {
        Err(Error::PluginExecution { plugin, message }) => {
            assert_eq!(plugin, "p");
            assert_eq!(message, "no");
        }
        _ => panic!("expected a failure"),
    }
    assert!(lines_of("").is_empty());
}

#[test]
fn every_host_is_probed_with_every_scheme() {
    let input = vec![
        Entity::new(EntityType::Domain, "a", "x"),
        Entity::new(EntityType::Url, "u", "x"),
        Entity::new(EntityType::IpAddress, "192.0.2.1", "x"),
    ];
    let found: Vec<(usize, String)> =
        probes(&input, &PluginConfig::default()).into_iter().map(|p| (p.host, p.url)).collect();
    assert_eq!(
        found,
        vec![
            (0, "https://a".to_string()),
            (0, "http://a".to_string()),
            (2, "https://192.0.2.1".to_string()),
            (2, "http://192.0.2.1".to_string()),
        ]
    );
    let config = object(vec![
        ("schemes", Json::Array(vec![text("ftp"), Json::PosInt(1)])),
        ("timeout_secs", Json::PosInt(3)),
    ]);
    assert_eq!(probes(&input, &config).len(), 2);
    assert_eq!(probes(&input, &config)[0].url, "ftp://a");
    assert_eq!(timeout_secs(&config), 3);
    assert_eq!(timeout_secs(&PluginConfig::default()), 10);
}

#[test]
fn a_reply_becomes_a_page() {
    let host = Entity::new(EntityType::Domain, "a", "x");
    let reply = Reply {
        status: 301,
        final_url: "https://a/".to_string(),
        server: Some("nginx".to_string()),
        powered_by: None,
        content_length: Some(12),
        body: "<title>A</title>".to_string(),
    };
    let e = page(&host, "http://a", &reply);
    assert_eq!(e.entity_type, EntityType::Url);
    assert_eq!(e.value, "https://a/");
    assert_eq!(e.metadata.get("requested_url"), Some(&text("http://a")));
    assert_eq!(e.metadata.get("status"), Some(&Json::PosInt(301)));
    assert_eq!(e.metadata.get("title"), Some(&text("A")));
    assert_eq!(e.metadata.get("server"), Some(&text("nginx")));
    assert_eq!(e.metadata.get("x_powered_by"), Some(&Json::Null));
    assert_eq!(e.metadata.get("content_length"), Some(&Json::PosInt(12)));
    assert_eq!(e.relations[0].target, host.id);
}

#[test]
fn ports_come_from_the_configuration() {
    let config = object(vec![
        ("ports", Json::Array(vec![Json::PosInt(80), Json::PosInt(70000), text("x"), Json::PosInt(22)])),
        ("timeout_ms", Json::PosInt(300)),
        ("concurrency", Json::PosInt(0)),
    ]);
    assert_eq!(portscan::ports(&config), vec![80, 22]);
    assert_eq!(portscan::timeout_ms(&config), 300);
    assert_eq!(portscan::concurrency(&config), 1);
    let none = PluginConfig::default();
    let usual = portscan::ports(&none);
    assert_eq!(usual.len(), 30);
    assert_eq!(usual[0], 21);
    assert_eq!(usual[29], 27017);
    assert_eq!(portscan::timeout_ms(&none), 800);
    assert_eq!(portscan::concurrency(&none), 200);
}

#[test]
fn an_open_port_is_linked_to_its_host() {
    let open_port = 4321u16;
    let ip = Entity::new(EntityType::IpAddress, "127.0.0.1", "seed");
    let input = vec![ip.clone()];
    let results = portscan::entities(&input, &vec![("127.0.0.1".to_string(), open_port)]);

    let mut graph = EntityGraph::new();
    graph.add_entities(results);

    let port_entities = graph.entities_by_type(EntityType::Port);
    assert_eq!(port_entities.len(), 1, "only the bound port should show as open");
    assert_eq!(port_entities[0].value, format!("127.0.0.1:{open_port}"));
    assert_eq!(port_entities[0].metadata.get("state"), Some(&text("open")));

    let merged_ip = graph.find_by_value(EntityType::IpAddress, "127.0.0.1").unwrap();
    let relations = graph.relations_of(merged_ip.id);
    assert_eq!(relations.len(), 1);
    assert_eq!(relations[0].1.value, format!("127.0.0.1:{open_port}"));
}

#[test]
fn ports_of_hosts_that_were_not_scanned_are_left_out() {
    let domain = Entity::new(EntityType::Domain, "example.com", "seed");
    let results = portscan::entities(&vec![domain], &vec![("example.com".to_string(), 80)]);
    assert!(results.is_empty());
}

#[test]
fn open_ports_are_grouped_and_sorted() {
    let input = vec![
        Entity::new(EntityType::IpAddress, "192.0.2.1", "x"),
        Entity::new(EntityType::IpAddress, "192.0.2.2", "x"),
    ];
    let open = vec![
        ("192.0.2.2".to_string(), 443),
        ("192.0.2.1".to_string(), 22),
        ("192.0.2.2".to_string(), 80),
        ("192.0.2.2".to_string(), 8080),
    ];
    let found = portscan::entities(&input, &open);
    let values: Vec<&str> = found.iter().map(|e| e.value.as_str()).collect();
    assert_eq!(
        values,
        vec!["192.0.2.2:80", "192.0.2.2:443", "192.0.2.2:8080", "192.0.2.2", "192.0.2.1:22", "192.0.2.1"]
    );
    assert_eq!(found[3].relations.len(), 3);
    assert_eq!(found[3].relations[2].target, found[2].id);
    assert_eq!(found[5].relations[0].target, found[4].id);
    assert_eq!(found[0].metadata.get("likely_service"), Some(&text("http")));
    assert_eq!(found[0].metadata.get("port"), Some(&Json::PosInt(80)));
}

#[test]
fn only_accepted_kinds_are_picked() {
    let input = vec![
        Entity::new(EntityType::Url, "u", "x"),
        Entity::new(EntityType::Domain, "d", "x"),
        Entity::new(EntityType::Port, "p", "x"),
        Entity::new(EntityType::Url, "v", "x"),
    ];
    assert_eq!(choose_targets(&input, &vec![EntityType::Url, EntityType::Port]), vec![0, 2, 3]);
    assert!(choose_targets(&input, &vec![]).is_empty());
    assert_eq!(whois::answer_text(b"caf\xC3\xA9 \xFF"), "café \u{FFFD}");
}

#[test]
fn every_usable_host_is_tried_on_every_port() {
    let input = vec![
        Entity::new(EntityType::IpAddress, "192.0.2.1", "x"),
        Entity::new(EntityType::IpAddress, "not an address", "x"),
        Entity::new(EntityType::Domain, "192.0.2.2", "x"),
        Entity::new(EntityType::IpAddress, "192.0.2.3", "x"),
    ];
    assert_eq!(
        portscan::attempts(&input, &vec![true, false, true, true], &vec![80, 22]),
        vec![(0, 80), (0, 22), (3, 80), (3, 22)]
    );
    assert!(portscan::attempts(&Vec::new(), &Vec::new(), &vec![80]).is_empty());
}

#[test]
fn results_are_joined_call_by_call() {
    let found = |value: &str| vec![Entity::new(EntityType::Url, value, "katana")];
    let one = gather(vec![], Ok(found("a"))).unwrap();
    let two = gather(one, Ok(vec![])).unwrap();
    let three = gather(two, Ok(found("b"))).unwrap();
    let values: Vec<&str> = three.iter().map(|e| e.value.as_str()).collect();
    assert_eq!(values, vec!["a", "b"]);
    match gather(three, Err(Error::Io("gone".to_string()))) {
        Err(Error::Io(m)) => assert_eq!(m, "gone"),
        _ => panic!("the call failed"),
    }
}

#[test]
fn a_request_without_an_answer_leads_to_nothing() {
    let host = Entity::new(EntityType::Domain, "example.com", "seed");
    assert!(httpx::entities(&host, "http://example.com", &None).is_empty());
    let reply = Reply {
        status: 204,
        final_url: "http://example.com/".to_string(),
        server: None,
        powered_by: None,
        content_length: None,
        body: String::new(),
    };
    let found = httpx::entities(&host, "http://example.com", &Some(reply));
    assert_eq!(found.len(), 1);
    assert_eq!(found[0].value, "http://example.com/");
}
