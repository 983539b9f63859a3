//! What holds of the results that the functions of this library hand out,
//! whatever they are called with.
use vstd::prelude::*;

use crate::certsh::{
    all_drafts, certificate_drafts, certspotter_certificate, certspotter_entities,
    crtsh_certificate, crtsh_entities, host_draft, host_entity, live_certificate, live_entities,
    CertSpotterRecord, CertificateView, CrtShRecord,
};
use crate::certsh_laws::{
    entity_count, law_a_host_has_its_certificate,
    law_every_certificate_leads_to_itself_and_its_hosts,
    law_only_wildcards_are_shown_as_wildcards,
};
use crate::cli::{
    classify_seed, find_issues, plugin_complaint, plugin_row, row, stage_issue, unknown_plugin,
    verdict,
};
use crate::cli_laws::{
    is_registered, law_an_issue_is_named, law_issues_are_told_stage_by_stage,
    law_plugins_are_found_by_name,
};
use crate::dns_laws::{
    law_a_query_asks_what_it_was_built_for, law_a_query_names_its_labels, law_answers_read_back,
    name_bytes, response_bytes, writable, Answer,
};
use crate::dns_wire::{build_query, labels_fit, parse_response, record_views, Record};
use crate::dnsx::{
    addresses, host_entities, later_id, record_type_from_str, record_types, resolvers, Inquiry,
};
use crate::dnsx_laws::{
    law_a_lookup_leads_to_addresses_and_the_host,
    law_a_lookup_leads_to_something_if_a_record_says_something, law_record_types_have_names,
    law_without_settings_addresses_are_asked_for, listed,
};
use crate::document::{array_in_json, to_json, Toml, TomlTable, TomlView};
use crate::engine::{after_attempt, Attempt, Retry};
use crate::entity::{
    drafts, entity_views, ids, Entity, EntityType, EntityView, RelationKindView, RelationView,
};
use crate::error::{Error, ErrorView};
use crate::gather::gather;
use crate::httpx;
use crate::httpx::{extract_title, page, probe_views, probes, Probe, Reply};
use crate::httpx_laws::{
    law_an_answer_is_shown_field_by_field, law_requests_stand_host_by_host,
    law_the_title_stands_between_its_tags,
};
use crate::json::{Json, JsonView};
use crate::katana;
use crate::net::IpAddr;
use crate::nuclei;
use crate::octets::text_of;
use crate::pipeline::{PipelineDef, StageDef, StageView};
use crate::pipeline_laws::{law_a_pipeline_is_accepted_by_its_names, law_settings_are_as_written};
use crate::plugin::{PluginConfig, PluginRegistry, ReconPlugin};
use crate::portscan;
use crate::portscan_laws::law_the_usual_ports_have_usual_services;
use crate::scanner_laws::{
    has_option, law_katana_is_called_for_each_url, law_nuclei_is_called_for_each_url,
    law_subfinder_is_called_for_each_domain,
};
use crate::subfinder;
use crate::text::{decimal, is_white, join, lower, somes, texts, trim, upper};
use crate::text_laws::{law_no_option_counts, law_the_first_option_counts};
use crate::tool::{
    chosen, filled_lines, invocation_views, law_only_accepted_kinds_are_chosen, output_lines,
    Invocation, ToolOutput,
};
use crate::whois;
use crate::whois_laws::{
    law_an_answer_leads_to_range_origin_and_detail, law_dates_are_not_mixed_up, plain_value,
};
use crate::x509::{
    certificate_bytes, certificate_names, extract_san_dns_names, law_certificate_names_read_back,
    san_extension, TlvView,
};

verus! {

/// The entity for a host on a certificate is kept under the host's name, has
/// that certificate, and is shown as a wildcard if and only if the host begins
/// with an asterisk and a dot.
pub proof fn law_a_host_entity_is_its_host(host: &str, domain: &Entity, cert_id: u128, r: Entity)
    requires
        call_ensures(host_entity, (host, domain, cert_id), r),
    ensures
        r@.value == host@,
        r@.metadata.member("wildcard"@) == Some(
            JsonView::Bool(host@.len() >= 2 && host@[0] == '*' && host@[1] == '.'),
        ),
        r@.relations.len() > 0,
        r@.relations[0] == (RelationView {
            target: cert_id,
            kind: RelationKindView::HasCertificate,
        }),
        r@.entity_type == if lower(host@) == lower(domain@.value) {
            EntityType::Domain
        } else {
            EntityType::Subdomain
        },
{
    assert(r@.draft().value == r@.value);
    law_only_wildcards_are_shown_as_wildcards(host@, domain@, cert_id);
    law_a_host_has_its_certificate(host@, domain@, cert_id);
}

/// Whether entities hold a certificate and, linked to it, its hosts.
pub open spec fn holds_certificate(es: Seq<Entity>, cert: CertificateView) -> bool {
    exists|i: int|
        0 <= i < es.len() && (#[trigger] es[i])@.entity_type == EntityType::Certificate
            && es[i]@.value == cert.value && es[i]@.metadata == cert.metadata && forall|h: int|
            0 <= h < cert.hosts.len() ==> i + 1 + h < es.len() && (#[trigger] es[i + 1 + h])@.value
                == cert.hosts[h] && es[i + 1 + h]@.relations.len() > 0 && es[i + 1
                + h]@.relations[0] == (RelationView {
                target: es[i].id,
                kind: RelationKindView::HasCertificate,
            })
}

proof fn lemma_certificates_are_held(
    domain: EntityView,
    certs: Seq<CertificateView>,
    es: Seq<Entity>,
    c: int,
)
    requires
        0 <= c < certs.len(),
        drafts(es) == all_drafts(domain, certs, ids(es)),
    ensures
        es.len() == entity_count(certs),
        holds_certificate(es, certs[c]),
{
    let found = ids(es);
    lemma_all_count(domain, certs, found);
    assert(drafts(es).len() == es.len());
    law_every_certificate_leads_to_itself_and_its_hosts(domain, certs, found, c, 0);
    let at = entity_count(certs.take(c));
    let all = all_drafts(domain, certs, found);
    assert(all[at] == es[at]@.draft());
    assert forall|h: int| 0 <= h < certs[c].hosts.len() implies at + 1 + h < es.len() && (
    #[trigger] es[at + 1 + h])@.value == certs[c].hosts[h] && es[at + 1 + h]@.relations.len() > 0
        && es[at + 1 + h]@.relations[0] == (RelationView {
        target: es[at].id,
        kind: RelationKindView::HasCertificate,
    }) by {
        law_every_certificate_leads_to_itself_and_its_hosts(domain, certs, found, c, h);
        assert(all[at + 1 + h] == es[at + 1 + h]@.draft());
        assert(found[at] == es[at].id);
        law_a_host_has_its_certificate(certs[c].hosts[h], domain, found[at]);
    }
}

proof fn lemma_all_count(domain: EntityView, certs: Seq<CertificateView>, found: Seq<u128>)
    ensures
        all_drafts(domain, certs, found).len() == entity_count(certs),
    decreases certs.len(),
{
    if certs.len() > 0 {
        lemma_all_count(domain, certs.drop_last(), found);
    }
}

/// What crt.sh answers leads to each certificate with its hosts, and to nothing
/// else.
pub proof fn law_crtsh_answers_lead_to_certificates_and_hosts(
    domain: &Entity,
    records: &Vec<CrtShRecord>,
    r: Vec<Entity>,
    c: int,
)
    requires
        call_ensures(crtsh_entities, (domain, records), r),
        0 <= c < records@.len(),
    ensures
        holds_certificate(r@, crtsh_certificate(records@[c])),
        r@.len() == entity_count(records@.map_values(|c: CrtShRecord| crtsh_certificate(c))),
{
    let certs = records@.map_values(|c: CrtShRecord| crtsh_certificate(c));
    lemma_certificates_are_held(domain@, certs, r@, c);
}

/// What certspotter answers leads to each certificate with its hosts, and to
/// nothing else.
pub proof fn law_certspotter_answers_lead_to_certificates_and_hosts(
    domain: &Entity,
    records: &Vec<CertSpotterRecord>,
    r: Vec<Entity>,
    c: int,
)
    requires
        call_ensures(certspotter_entities, (domain, records), r),
        0 <= c < records@.len(),
    ensures
        holds_certificate(r@, certspotter_certificate(records@[c])),
        r@.len() == entity_count(
            records@.map_values(|c: CertSpotterRecord| certspotter_certificate(c)),
        ),
{
    let certs = records@.map_values(|c: CertSpotterRecord| certspotter_certificate(c));
    lemma_certificates_are_held(domain@, certs, r@, c);
}

/// A datagram that a server wrote as a response with any answers is read as
/// these answers.
pub proof fn law_a_written_response_is_parsed(
    buf: &[u8],
    id: u16,
    r: Option<Vec<Record>>,
    flags: u16,
    name: Seq<char>,
    qtype: u16,
    answers: Seq<Answer>,
    ttl: (u16, u16),
    others: (u16, u16),
    tail: Seq<u8>,
)
    requires
        call_ensures(parse_response, (buf, id), r),
        buf@ == response_bytes(id, flags, name, qtype, answers, ttl.0, ttl.1, others, tail),
        flags % 16 == 0,
        labels_fit(name),
        answers.len() <= u16::MAX,
        forall|i: int| 0 <= i < answers.len() ==> (#[trigger] answers[i]).fits(),
    ensures
        r is Some,
        r->0@.len() == answers.len(),
        forall|i: int|
            0 <= i < answers.len() ==> (#[trigger] r->0@[i])@.rdata == answers[i].meaning()
                && r->0@[i]@.rtype == answers[i].number(),
{
    law_answers_read_back(id, flags, name, qtype, answers, ttl.0, ttl.1, others, tail);
    let records = answers.map_values(|a: Answer| a.record());
    assert(record_views(r->0@) == records);
    assert(record_views(r->0@).len() == r->0@.len());
    assert forall|i: int| 0 <= i < answers.len() implies (#[trigger] r->0@[i])@.rdata
        == answers[i].meaning() && r->0@[i]@.rtype == answers[i].number() by {
        assert(record_views(r->0@)[i] == r->0@[i]@);
        assert(records[i] == answers[i].record());
    }
}

/// A query that is built for a host begins with its id, names the labels of the
/// host, and asks for the type.
pub proof fn law_a_built_query_asks_for_its_host(
    id: u16,
    name: &str,
    qtype: u16,
    r: Vec<u8>,
    ls: Seq<Seq<char>>,
)
    requires
        call_ensures(build_query, (id, name, qtype), r),
        name@ == join(ls, seq!['.']),
        ls.len() > 0,
        writable(ls),
        forall|i: int| 0 <= i < ls.len() ==> !(#[trigger] ls[i]).contains('.'),
    ensures
        r@.len() >= 17,
        r@[0] * 256 + r@[1] == id,
        r@.subrange(12, 12int + name_bytes(ls).len()) == name_bytes(ls),
        r@[r@.len() - 4] * 256 + r@[r@.len() - 3] == qtype,
{
    law_a_query_asks_what_it_was_built_for(id, name@, qtype);
    law_a_query_names_its_labels(id, ls, qtype);
}

/// The entities for the records of a host are its addresses, in order, and last
/// the host with a link to each; there are none if no record says anything.
pub proof fn law_host_entities_are_addresses_and_the_host(
    host: &Entity,
    records: &Vec<Record>,
    r: Vec<Entity>,
    k: int,
)
    requires
        call_ensures(host_entities, (host, records), r),
    ensures
        r@.len() == 0 <==> forall|i: int|
            0 <= i < record_views(records@).len() ==> (#[trigger] record_views(
                records@,
            )[i]).rdata is Other,
        r@.len() > 0 ==> {
            let last = r@.last()@;
            let found = addresses(record_views(records@));
            &&& r@.len() == found.len() + 1
            &&& last.entity_type == host@.entity_type
            &&& last.value == host@.value
            &&& last.relations.len() == found.len()
            &&& last.metadata is Object
            &&& last.metadata->Object_0["cname"@]->Array_0 == listed(
                record_views(records@),
                "cname"@,
            )
            &&& last.metadata->Object_0["ns"@]->Array_0 == listed(record_views(records@), "ns"@)
            &&& last.metadata->Object_0["mx"@]->Array_0 == listed(record_views(records@), "mx"@)
            &&& last.metadata->Object_0["txt"@]->Array_0 == listed(record_views(records@), "txt"@)
            &&& 0 <= k < found.len() ==> r@[k]@.entity_type == EntityType::IpAddress && r@[k]@.value
                == found[k] && last.relations[k] == (RelationView {
                target: r@[k].id,
                kind: RelationKindView::ResolvesTo,
            })
        },
{
    let views = record_views(records@);
    let found = ids(r@);
    law_a_lookup_leads_to_something_if_a_record_says_something(host@, views, found);
    assert(drafts(r@).len() == r@.len());
    if r@.len() > 0 {
        law_a_lookup_leads_to_addresses_and_the_host(host@, views, found, k);
        assert(drafts(r@).last() == r@.last()@.draft());
        if 0 <= k < addresses(views).len() {
            assert(drafts(r@)[k] == r@[k]@.draft());
            assert(found[k] == r@[k].id);
        }
    }
}

/// The type that a name stands for.
pub proof fn law_record_type_names_are_read(s: &str, r: Option<u16>)
    requires
        call_ensures(record_type_from_str, (s,), r),
    ensures
        r == Some(1u16) <==> upper(s@) == "A"@,
        r == Some(2u16) <==> upper(s@) == "NS"@,
        r == Some(5u16) <==> upper(s@) == "CNAME"@,
        r == Some(15u16) <==> upper(s@) == "MX"@,
        r == Some(16u16) <==> upper(s@) == "TXT"@,
        r == Some(28u16) <==> upper(s@) == "AAAA"@,
{
    law_record_types_have_names(s@);
}

/// Without settings, addresses are asked for.
pub proof fn law_addresses_are_asked_for_by_default(config: &PluginConfig, r: Vec<u16>)
    requires
        call_ensures(record_types, (config,), r),
        !(config@.member("record_types"@) matches Some(JsonView::Array(_))),
    ensures
        r@ == seq![1u16],
{
    law_without_settings_addresses_are_asked_for(config@);
}

/// Servers that could be read are asked, all of them in order.
pub proof fn law_readable_servers_are_asked(listed: &Vec<Option<IpAddr>>, r: Vec<IpAddr>)
    requires
        call_ensures(resolvers, (listed,), r),
        somes(listed@).len() > 0,
    ensures
        r@ == somes(listed@),
{
}

/// The entity for an answer with a date of registration and a date of expiry
/// has each under its own name.
pub proof fn law_whois_dates_are_kept_apart(
    entity: &Entity,
    text: &str,
    r: Vec<Entity>,
    created: Seq<char>,
    expires: Seq<char>,
)
    requires
        call_ensures(whois::entities, (entity, text), r),
        plain_value(created),
        plain_value(expires),
        text@ == ("Creation Date: "@ + created + seq!['\n']) + ("Registry Expiry Date: "@ + expires
            + seq!['\n']),
    ensures
        r@.len() > 0,
        r@.last()@.entity_type == entity@.entity_type,
        r@.last()@.value == entity@.value,
        r@.last()@.metadata.member("created"@) == Some(JsonView::Text(created)),
        r@.last()@.metadata.member("expires"@) == Some(JsonView::Text(expires)),
{
    law_dates_are_not_mixed_up(created, expires);
    law_an_answer_leads_to_range_origin_and_detail(entity@, text@, ids(r@));
    assert(drafts(r@).len() == r@.len());
    assert(drafts(r@).last() == r@.last()@.draft());
}

/// A plugin that asks for a setting gets what was written: a truth value, a
/// number or a text as it stands in the table, and nothing where it is not
/// there.
pub proof fn law_a_plugin_gets_the_settings_that_were_written(
    table: TomlTable,
    config: PluginConfig,
    key: &str,
    b: Option<bool>,
    n: Option<u64>,
    s: Option<&str>,
)
    requires
        call_ensures(PluginConfig::from_toml_table, (table,), config),
        call_ensures(PluginConfig::get_bool, (&config, key), b),
        call_ensures(PluginConfig::get_u64, (&config, key), n),
        call_ensures(PluginConfig::get_str, (&config, key), s),
    ensures
        !table@.contains_key(key@) ==> b is None && n is None && s is None,
        table@.contains_key(key@) ==> match table@[key@] {
            TomlView::Boolean(x) => b == Some(x) && n is None && s is None,
            TomlView::Integer(x) => b is None && s is None && n == if x >= 0 {
                Some(x as u64)
            } else {
                None
            },
            TomlView::Text(x) => b is None && n is None && s is Some && s->0@ == x,
            _ => b is None && n is None && s is None,
        },
{
    law_settings_are_as_written(table@, key@);
}

/// A pipeline is accepted if and only if it has a stage, its stages have
/// different names, and it names only the seed and its own stages.
pub proof fn law_validation_goes_by_names(pipeline: &PipelineDef, r: Result<(), Error>)
    requires
        call_ensures(PipelineDef::validate, (pipeline,), r),
    ensures
        r is Ok <==> {
            let p = pipeline@;
            &&& p.stages.len() > 0
            &&& forall|i: int, j: int|
                0 <= i < j < p.stages.len() ==> (#[trigger] p.stages[i]).name != (
                #[trigger] p.stages[j]).name
            &&& forall|i: int, dep: Seq<char>|
                #![trigger p.stages[i].depends_on.contains(dep)]
                0 <= i < p.stages.len() && (p.stages[i].depends_on.contains(dep)
                    || p.stages[i].input == dep) ==> dep == "seed"@ || exists|j: int|
                    0 <= j < p.stages.len() && (#[trigger] p.stages[j]).name == dep
        },
        r is Err ==> r->Err_0@ is InvalidPipeline,
{
    law_a_pipeline_is_accepted_by_its_names(pipeline@);
}

/// The title that is read stands between the tags.
pub proof fn law_the_title_is_extracted(
    body: &str,
    r: Option<String>,
    before: Seq<char>,
    attributes: Seq<char>,
    text: Seq<char>,
    after: Seq<char>,
)
    requires
        call_ensures(extract_title, (body,), r),
        body@ == before + "<title"@ + attributes + seq!['>'] + text + "</title>"@ + after,
        !before.contains('<'),
        !attributes.contains('>'),
        !text.contains('<'),
        text.len() > 0,
        !is_white(text[0]),
        !is_white(text.last()),
    ensures
        r is Some,
        r->0@ == text,
{
    reveal_strlit("<title");
    reveal_strlit("</title>");
    let none = Seq::<char>::empty();
    let tag = "<title"@;
    let end = "</title>"@;
    let whole = before + tag + attributes + seq!['>'] + none + text + none + end + after;
    assert(whole =~= body@);
    assert(lower(tag) =~= tag);
    assert(lower(end) =~= end);
    let low = lower(whole);
    let inside = before.len() + tag.len() + attributes.len() + 1;
    let close = inside + none.len() + text.len() + none.len();
    assert forall|j: int| 0 <= j < before.len() implies (#[trigger] low.subrange(j, j + 6))
        != tag by {
        assert(whole[j] == before[j]);
        assert(before.contains(before[j]));
        assert(low.subrange(j, j + 6)[0] == low[j]);
        assert(low[j] != '<');
    }
    assert forall|j: int| inside <= j < close implies (#[trigger] low.subrange(j, j + 8))
        != end by {
        assert(whole[j] == text[j - inside]);
        assert(text.contains(text[j - inside]));
        assert(low.subrange(j, j + 8)[0] == low[j]);
        assert(low[j] != '<');
    }
    law_the_title_stands_between_its_tags(
        before,
        tag,
        attributes,
        none,
        text,
        none,
        end,
        after,
    );
}

/// The entity for an answer of a server shows what the server answered.
pub proof fn law_a_page_shows_its_answer(host: &Entity, url: &str, reply: &Reply, r: Entity)
    requires
        call_ensures(page, (host, url, reply), r),
    ensures
        r@.entity_type == EntityType::Url,
        r@.value == reply.final_url@,
        r@.metadata.member("requested_url"@) == Some(JsonView::Text(url@)),
        r@.metadata.member("status"@) == Some(JsonView::PosInt(reply.status as u64)),
        r@.metadata.member("server"@) == Some(match reply.server {
            Some(s) => JsonView::Text(s@),
            None => JsonView::Null,
        }),
        r@.metadata.member("x_powered_by"@) == Some(match reply.powered_by {
            Some(s) => JsonView::Text(s@),
            None => JsonView::Null,
        }),
        r@.metadata.member("content_length"@) == Some(match reply.content_length {
            Some(n) => JsonView::PosInt(n),
            None => JsonView::Null,
        }),
        r@.relations.len() == 1,
        r@.relations[0].target == host@.id,
{
    law_an_answer_is_shown_field_by_field(host@, url@, *reply);
    assert(r@.draft().value == r@.value);
}

/// Every domain, subdomain and address is requested with every scheme, and
/// nothing else is.
pub proof fn law_every_host_is_requested(
    input: &Vec<Entity>,
    config: &PluginConfig,
    r: Vec<Probe>,
    i: int,
    s: int,
)
    requires
        call_ensures(probes, (input, config), r),
        0 <= s < httpx::schemes_asked(config@).len(),
        0 <= i < input@.len(),
    ensures
        ({
            let t = input@[i].entity_type;
            let kind = t == EntityType::Domain || t == EntityType::Subdomain || t
                == EntityType::IpAddress;
            kind ==> exists|k: int|
                0 <= k < r@.len() && (#[trigger] r@[k])@.host == i && r@[k]@.url
                    == httpx::schemes_asked(config@)[s] + seq![':', '/', '/'] + input@[i]@.value
        }),
        forall|k: int| 0 <= k < r@.len() && (#[trigger] r@[k])@.host == i ==> {
            let t = input@[i].entity_type;
            t == EntityType::Domain || t == EntityType::Subdomain || t == EntityType::IpAddress
        },
{
    let views = entity_views(input@);
    let kinds = seq![EntityType::Domain, EntityType::Subdomain, EntityType::IpAddress];
    let hosts = chosen(views, kinds);
    let schemes = httpx::schemes_asked(config@);
    law_only_accepted_kinds_are_chosen(views, kinds, i);
    assert(views[i].entity_type == input@[i].entity_type);
    assert(kinds[0] == EntityType::Domain && kinds[1] == EntityType::Subdomain && kinds[2]
        == EntityType::IpAddress);
    assert(probe_views(r@).len() == r@.len());
    let n = schemes.len() as int;
    if hosts.contains(i) {
        let h = hosts.index_of(i);
        law_requests_stand_host_by_host(views, hosts, schemes, h, s);
        let k = h * n + s;
        assert(probe_views(r@)[k] == r@[k]@);
    }
    assert forall|k: int| 0 <= k < r@.len() && (#[trigger] r@[k])@.host == i implies {
        let t = input@[i].entity_type;
        t == EntityType::Domain || t == EntityType::Subdomain || t == EntityType::IpAddress
    } by {
        assert(probe_views(r@)[k] == r@[k]@);
        lemma_probe_hosts(views, hosts, schemes, k);
        assert(kinds.contains(views[i].entity_type));
    }
}

proof fn lemma_probe_hosts(
    input: Seq<EntityView>,
    hosts: Seq<int>,
    schemes: Seq<Seq<char>>,
    k: int,
)
    requires
        0 <= k < httpx::probes_for(input, hosts, schemes).len(),
    ensures
        hosts.contains(httpx::probes_for(input, hosts, schemes)[k].host),
    decreases hosts.len(),
{
    if hosts.len() > 0 {
        let front = httpx::probes_for(input, hosts.drop_last(), schemes);
        if k < front.len() {
            lemma_probe_hosts(input, hosts.drop_last(), schemes, k);
            let h = hosts.drop_last().index_of(front[k].host);
            assert(hosts[h] == front[k].host);
        } else {
            assert(hosts[hosts.len() - 1] == hosts.last());
        }
    }
}

/// How long is waited for a page, as the settings say, or ten seconds.
pub proof fn law_pages_are_waited_for(config: &PluginConfig, r: u64)
    requires
        call_ensures(httpx::timeout_secs, (config,), r),
    ensures
        r == match config@.member("timeout_secs"@) {
            Some(JsonView::PosInt(n)) => n,
            _ => 10,
        },
{
}

/// How long is waited for a port, and how many are tried at the same time, as
/// the settings say, or 800 milliseconds and 200; at least one is tried.
pub proof fn law_ports_are_waited_for(config: &PluginConfig, wait: u64, many: u64)
    requires
        call_ensures(portscan::timeout_ms, (config,), wait),
        call_ensures(portscan::concurrency, (config,), many),
    ensures
        wait == match config@.member("timeout_ms"@) {
            Some(JsonView::PosInt(n)) => n,
            _ => 800,
        },
        many >= 1,
        many == match config@.member("concurrency"@) {
            Some(JsonView::PosInt(n)) => if n == 0 {
                1
            } else {
                n
            },
            _ => 200,
        },
{
}

/// Without settings the ports with a usual service are tried.
pub proof fn law_usual_ports_are_tried_by_default(config: &PluginConfig, r: Vec<u16>, port: u16)
    requires
        call_ensures(portscan::ports, (config,), r),
        !(config@.member("ports"@) matches Some(JsonView::Array(_))),
    ensures
        r@.contains(port) <==> portscan::usual_service(port) is Some,
{
    law_the_usual_ports_have_usual_services(port);
}

/// `subfinder` is called for every domain with that domain, or not at all where
/// it is missing.
pub proof fn law_a_subfinder_plan_covers_every_domain(
    input: &Vec<Entity>,
    config: &PluginConfig,
    found_on_path: bool,
    r: Result<Vec<Invocation>, Error>,
    i: int,
)
    requires
        call_ensures(subfinder::plan, (input, config, found_on_path), r),
        0 <= i < input@.len(),
        input@[i].entity_type == EntityType::Domain,
    ensures
        r is Ok <==> found_on_path,
        r is Ok ==> exists|k: int|
            0 <= k < r->Ok_0@.len() && (#[trigger] r->Ok_0@[k])@.target == i && has_option(
                r->Ok_0@[k]@.args,
                "-d"@,
                input@[i]@.value,
            ),
{
    let views = entity_views(input@);
    let kinds = seq![EntityType::Domain];
    let hosts = chosen(views, kinds);
    law_only_accepted_kinds_are_chosen(views, kinds, i);
    assert(views[i].entity_type == input@[i].entity_type);
    assert(kinds[0] == EntityType::Domain);
    assert(hosts.contains(i));
    if r is Ok {
        let k = hosts.index_of(i);
        law_subfinder_is_called_for_each_domain(views, config@, k);
        assert(invocation_views(r->Ok_0@)[k] == r->Ok_0@[k]@);
    }
}

/// `katana` is called for every URL with that URL, or not at all where it is
/// missing.
pub proof fn law_a_katana_plan_covers_every_url(
    input: &Vec<Entity>,
    config: &PluginConfig,
    found_on_path: bool,
    r: Result<Vec<Invocation>, Error>,
    i: int,
)
    requires
        call_ensures(katana::plan, (input, config, found_on_path), r),
        0 <= i < input@.len(),
        input@[i].entity_type == EntityType::Url,
    ensures
        r is Ok <==> found_on_path,
        r is Ok ==> exists|k: int|
            0 <= k < r->Ok_0@.len() && (#[trigger] r->Ok_0@[k])@.target == i
                && r->Ok_0@[k]@.args.len() >= 6 && r->Ok_0@[k]@.args[1] == input@[i]@.value,
{
    let views = entity_views(input@);
    let kinds = seq![EntityType::Url];
    let hosts = chosen(views, kinds);
    law_only_accepted_kinds_are_chosen(views, kinds, i);
    assert(views[i].entity_type == input@[i].entity_type);
    assert(kinds[0] == EntityType::Url);
    assert(hosts.contains(i));
    let k = hosts.index_of(i);
    law_katana_is_called_for_each_url(views, config@, k);
    if r is Ok {
        assert(invocation_views(r->Ok_0@).len() == r->Ok_0@.len());
        assert(invocation_views(r->Ok_0@)[k] == r->Ok_0@[k]@);
    }
}

/// `nuclei` is called for every URL with that URL, or not at all where it is
/// missing.
pub proof fn law_a_nuclei_plan_covers_every_url(
    input: &Vec<Entity>,
    config: &PluginConfig,
    found_on_path: bool,
    r: Result<Vec<Invocation>, Error>,
    i: int,
)
    requires
        call_ensures(nuclei::plan, (input, config, found_on_path), r),
        0 <= i < input@.len(),
        input@[i].entity_type == EntityType::Url,
    ensures
        r is Ok <==> found_on_path,
        r is Ok ==> exists|k: int|
            0 <= k < r->Ok_0@.len() && (#[trigger] r->Ok_0@[k])@.target == i
                && r->Ok_0@[k]@.args.len() >= 4 && r->Ok_0@[k]@.args[1] == input@[i]@.value,
{
    let views = entity_views(input@);
    let kinds = seq![EntityType::Url];
    let hosts = chosen(views, kinds);
    law_only_accepted_kinds_are_chosen(views, kinds, i);
    assert(views[i].entity_type == input@[i].entity_type);
    assert(kinds[0] == EntityType::Url);
    assert(hosts.contains(i));
    let k = hosts.index_of(i);
    law_nuclei_is_called_for_each_url(views, config@, k);
    if r is Ok {
        assert(invocation_views(r->Ok_0@).len() == r->Ok_0@.len());
        assert(invocation_views(r->Ok_0@)[k] == r->Ok_0@[k]@);
    }
}

/// What is gathered is what was there, and then what one more call found; a
/// call that failed ends it with its error.
pub proof fn law_gathering_adds_or_fails(
    so_far: Vec<Entity>,
    outcome: Result<Vec<Entity>, Error>,
    r: Result<Vec<Entity>, Error>,
)
    requires
        call_ensures(gather::<Entity>, (so_far, outcome), r),
    ensures
        outcome is Ok ==> r is Ok && r->Ok_0@ == so_far@ + outcome->Ok_0@,
        outcome is Err ==> r is Err && r->Err_0@ == outcome->Err_0@,
{
}

/// After an attempt a stage is done if the attempt succeeded, or if it was one
/// more than the retries; else it is tried again, after at least a fifth of a
/// second and at most sixteen times as long.
pub proof fn law_an_attempt_is_followed_by_a_pause_or_the_end(
    stage: &StageDef,
    attempt: u32,
    ended: Attempt,
    r: Retry,
)
    requires
        call_ensures(after_attempt, (stage, attempt, ended), r),
        attempt >= 1,
    ensures
        r is Return <==> attempt > stage.retries || (ended matches Attempt::Finished(Ok(_))),
        r matches Retry::Backoff(ms) ==> 200 <= ms <= 3200 && (attempt == 1 ==> ms == 200) && (
        attempt == 2 ==> ms == 400) && (attempt >= 5 ==> ms == 3200),
        ended matches Attempt::Finished(Ok(es)) ==> r->Return_0 is Ok && r->Return_0->Ok_0.entities
            == es && r->Return_0->Ok_0.stage@ == stage@.name,
        r is Return && r->Return_0 is Err ==> match ended {
            Attempt::Finished(Err(e)) => r->Return_0->Err_0 == e,
            Attempt::TimedOut => r->Return_0->Err_0@ == (ErrorView::Timeout {
                stage: stage@.name,
                secs: stage.timeout_secs->0,
            }),
            _ => false,
        },
{
}

/// A seed is kept under its own value, as what it is.
pub proof fn law_a_seed_is_kept_as_it_is(target: &str, is_ip: bool, r: Entity)
    requires
        call_ensures(classify_seed, (target, is_ip), r),
    ensures
        r@.value == target@,
        r@.source == "seed"@,
        r@.relations.len() == 0,
        r@.entity_type == EntityType::IpAddress <==> is_ip,
        r@.entity_type == EntityType::Cidr <==> !is_ip && target@.contains('/'),
        r@.entity_type == EntityType::Domain <==> !is_ip && !target@.contains('/'),
{
    assert(r@.draft().value == r@.value);
}

/// The verdict on a pipeline is good if and only if there are no issues, and
/// says how many stages or issues there are.
pub proof fn law_the_verdict_goes_by_the_issues(
    pipeline: &PipelineDef,
    issues: &Vec<String>,
    r: Result<String, String>,
)
    requires
        call_ensures(verdict, (pipeline, issues), r),
    ensures
        r is Ok <==> issues@.len() == 0,
        r is Ok ==> r->Ok_0@ == "pipeline '"@ + pipeline@.name + "' is valid: "@ + decimal(
            pipeline@.stages.len(),
        ) + " stage(s), plugins and types check out"@,
        r is Err ==> r->Err_0@ == "pipeline '"@ + pipeline@.name + "' failed validation ("@
            + decimal(issues@.len()) + " issue(s))"@,
{
}

/// A pipeline is without issues if and only if each of its stages is.
pub proof fn law_issues_are_found_in_stages<P: ReconPlugin>(
    pipeline: &PipelineDef,
    registry: &PluginRegistry<P>,
    r: Vec<String>,
)
    requires
        call_ensures(find_issues::<P>, (pipeline, registry), r),
    ensures
        r@.len() == 0 <==> forall|i: int|
            0 <= i < pipeline@.stages.len() ==> stage_issue(
                pipeline@,
                registry@,
                #[trigger] pipeline@.stages[i],
            ) is None,
{
    law_issues_are_told_stage_by_stage(pipeline@, registry@);
    assert(texts(r@).len() == r@.len());
}

/// The certificate that a domain presents leads to itself, called after the
/// domain, and to the hosts that it names; one that names no host leads to a
/// complaint.
pub proof fn law_a_live_certificate_leads_to_its_hosts(
    domain: &Entity,
    cert_der: &[u8],
    r: Result<Vec<Entity>, String>,
    h: int,
)
    requires
        call_ensures(live_entities, (domain, cert_der), r),
    ensures
        ({
            let hosts = certificate_names(cert_der@);
            &&& r is Ok <==> hosts.len() > 0
            &&& r is Ok ==> {
                let es = r->Ok_0@;
                &&& es.len() == 1 + hosts.len()
                &&& es[0]@.entity_type == EntityType::Certificate
                &&& es[0]@.value == "tls-live:"@ + domain@.value
                &&& 0 <= h < hosts.len() ==> es[1 + h]@.value == hosts[h]
                    && es[1 + h]@.relations.len() > 0 && es[1 + h]@.relations[0] == (RelationView {
                    target: es[0].id,
                    kind: RelationKindView::HasCertificate,
                }) && es[1 + h]@.metadata.member("wildcard"@) == Some(
                    JsonView::Bool(hosts[h].len() >= 2 && hosts[h][0] == '*' && hosts[h][1] == '.'),
                )
            }
        }),
{
    let hosts = certificate_names(cert_der@);
    if r is Ok {
        let es = r->Ok_0@;
        let cert = live_certificate(domain@.value, hosts);
        let all = certificate_drafts(domain@, cert, ids(es));
        assert(drafts(es).len() == es.len());
        assert(drafts(es)[0] == es[0]@.draft());
        assert(ids(es)[0] == es[0].id);
        if 0 <= h < hosts.len() {
            assert(drafts(es)[1 + h] == es[1 + h]@.draft());
            assert(all[1 + h] == host_draft(hosts[h], domain@, es[0].id));
            law_a_host_has_its_certificate(hosts[h], domain@, es[0].id);
            law_only_wildcards_are_shown_as_wildcards(hosts[h], domain@, es[0].id);
        }
    }
}

/// The next server is the first that was not asked, as long as there is no
/// answer.
pub proof fn law_servers_are_asked_until_one_answers(inquiry: &Inquiry, r: Option<IpAddr>)
    requires
        call_ensures(Inquiry::next_server, (inquiry,), r),
    ensures
        inquiry.answer is Some ==> r is None,
        inquiry.answer is None && inquiry.asked < inquiry.servers@.len() ==> r == Some(
            inquiry.servers@[inquiry.asked as int],
        ),
        inquiry.asked >= inquiry.servers@.len() ==> r is None,
{
}

/// Domains, subdomains and addresses are looked up.
pub proof fn law_domains_and_addresses_are_looked_up(r: Vec<EntityType>, t: EntityType)
    requires
        call_ensures(whois::targets, (), r),
    ensures
        r@.contains(t) <==> t == EntityType::Domain || t == EntityType::Subdomain || t
            == EntityType::IpAddress,
{
    assert(r@[0] == EntityType::Domain && r@[1] == EntityType::Subdomain && r@[2]
        == EntityType::IpAddress);
}

/// A server is asked about a name by the name and a line ending.
pub proof fn law_a_question_is_a_line(value: &str, r: String)
    requires
        call_ensures(whois::question, (value,), r),
    ensures
        r@ == value@ + seq!['\r', '\n'],
{
    reveal_strlit("\r\n");
    assert("\r\n"@ =~= seq!['\r', '\n']);
}

/// The lines of a tool are its output, trimmed and without empty ones; a tool
/// that failed is reported with what it complained about.
pub proof fn law_the_output_of_a_tool_is_read_by_lines(
    plugin: &str,
    output: &ToolOutput,
    r: Result<Vec<String>, Error>,
)
    requires
        call_ensures(output_lines, (plugin, output), r),
    ensures
        r is Ok <==> output.success,
        r is Ok ==> texts(r->Ok_0@) == filled_lines(text_of(output.stdout@)),
        r is Err ==> r->Err_0@ == (ErrorView::PluginExecution {
            plugin: plugin@,
            message: trim(text_of(output.stderr@)),
        }),
{
}

/// A nested truth value, number or text of the settings is what was written.
pub proof fn law_a_value_is_shown_in_json_as_it_is(v: &Toml, r: Json)
    requires
        call_ensures(to_json, (v,), r),
    ensures
        match v@ {
            TomlView::Boolean(b) => r@ == JsonView::Bool(b),
            TomlView::Integer(n) => r@ == if n >= 0 {
                JsonView::PosInt(n as u64)
            } else {
                JsonView::NegInt(n)
            },
            TomlView::Text(s) => r@ == JsonView::Text(s),
            TomlView::Array(items) => r@ is Array && r@->Array_0.len() == items.len(),
            TomlView::Table(_) => r@ is Object,
            TomlView::Datetime(_) => r@ is Object,
            TomlView::NonFinite => r@ is Null,
            TomlView::Float(bits) => r@ is Null || r@ == JsonView::Float(bits),
        },
{
    if let TomlView::Array(items) = v@ {
        assert(array_in_json(items).len() == items.len());
    }
}

/// The entities for the lines of the tools are told line by line, and the
/// entities for a WHOIS answer as the answer says.
pub proof fn law_entities_say_what_was_found(
    e: &Entity,
    a: (&Vec<Option<subfinder::SubfinderLine>>, Vec<Entity>),
    b: (&Vec<Option<katana::KatanaLine>>, Vec<Entity>),
    c: (&Vec<Option<nuclei::NucleiLine>>, Vec<Entity>),
    d: (&str, Vec<Entity>),
)
    requires
        call_ensures(subfinder::entities, (e, a.0), a.1),
        call_ensures(katana::entities, (e, b.0), b.1),
        call_ensures(nuclei::entities, (e, c.0), c.1),
        call_ensures(whois::entities, (e, d.0), d.1),
    ensures
        drafts(a.1@) == subfinder::findings(e@, a.0@),
        drafts(b.1@) == katana::findings(e@, b.0@),
        drafts(c.1@) == nuclei::findings(e@, c.0@),
        drafts(d.1@) == whois::answer_drafts(e@, d.0@, ids(d.1@)),
{
}

/// The line about a plugin has its name, its binary, and whether it can run:
/// it can if it needs no binary or its binary was found.
pub proof fn law_the_line_about_a_plugin<P: ReconPlugin>(plugin: &P, found_on_path: bool, r: String)
    requires
        call_ensures(plugin_row::<P>, (plugin, found_on_path), r),
    ensures
        plugin.native() || found_on_path ==> r@ == row(
            plugin.name_text(),
            plugin.binary_text(),
            "yes"@,
        ),
        !plugin.native() && !found_on_path ==> r@ == row(
            plugin.name_text(),
            plugin.binary_text(),
            "no"@,
        ),
{
}

/// The complaint about unknown plugins names the first stage that has one, and
/// there is none if every plugin is registered.
pub proof fn law_the_first_unknown_plugin_is_complained_about<P: ReconPlugin>(
    pipeline: &PipelineDef,
    registry: &PluginRegistry<P>,
    r: Option<String>,
    i: int,
)
    requires
        call_ensures(unknown_plugin::<P>, (pipeline, registry), r),
    ensures
        (forall|j: int|
            0 <= j < pipeline@.stages.len() ==> is_registered(
                registry@,
                (#[trigger] pipeline@.stages[j]).plugin,
            )) ==> r is None,
        0 <= i < pipeline@.stages.len() && !is_registered(registry@, pipeline@.stages[i].plugin) && (
        forall|j: int|
            0 <= j < i ==> is_registered(registry@, (#[trigger] pipeline@.stages[j]).plugin))
            ==> r is Some && r->0@ == "stage '"@ + pipeline@.stages[i].name
            + "' references unknown plugin '"@ + pipeline@.stages[i].plugin + "'"@,
{
    let p = pipeline@;
    let tell = |s: StageView| plugin_complaint(s, registry@);
    let told = p.stages.map_values(tell);
    assert forall|j: int| 0 <= j < p.stages.len() implies ((#[trigger] told[j]) is None
        <==> is_registered(registry@, p.stages[j].plugin)) by {
        law_plugins_are_found_by_name(registry@, p.stages[j].plugin, 0);
    }
    if forall|j: int|
        0 <= j < p.stages.len() ==> is_registered(registry@, (#[trigger] p.stages[j]).plugin) {
        assert forall|j: int| 0 <= j < told.len() implies (#[trigger] told[j]) is None by {
            assert(is_registered(registry@, p.stages[j].plugin));
        }
        law_no_option_counts(told);
    }
    if 0 <= i < p.stages.len() && !is_registered(registry@, p.stages[i].plugin) && (forall|j: int|
        0 <= j < i ==> is_registered(registry@, (#[trigger] p.stages[j]).plugin)) {
        assert forall|j: int| 0 <= j < i implies (#[trigger] told[j]) is None by {
            assert(is_registered(registry@, p.stages[j].plugin));
        }
        law_the_first_option_counts(told, i);
        law_an_issue_is_named(p, registry@, p.stages[i]);
    }
}

/// A certificate that was written for some hosts is read as one for these
/// hosts.
pub proof fn law_the_hosts_of_a_certificate_are_extracted(
    cert_der: &[u8],
    r: Vec<String>,
    fields: Seq<TlvView>,
    names: Seq<Seq<char>>,
    critical: bool,
    signature: Seq<u8>,
)
    requires
        call_ensures(extract_san_dns_names, (cert_der,), r),
        cert_der@ == certificate_bytes(fields, seq![san_extension(names, critical)], signature),
        cert_der@.len() < 0x1_0000_0000,
        forall|i: int| 0 <= i < fields.len() ==> (#[trigger] fields[i]).tag != 0xA3,
    ensures
        r@.len() == names.len(),
        forall|i: int| 0 <= i < names.len() ==> (#[trigger] r@[i])@ == names[i],
{
    let others = Seq::<TlvView>::empty();
    assert(others.push(san_extension(names, critical)) =~= seq![san_extension(names, critical)]);
    law_certificate_names_read_back(fields, others, names, critical, signature);
    assert(texts(r@).len() == r@.len());
    assert forall|i: int| 0 <= i < names.len() implies (#[trigger] r@[i])@ == names[i] by {
        assert(texts(r@)[i] == r@[i]@);
    }
}

/// A request leads to the page that answered it, or to nothing where there was
/// no answer.
pub proof fn law_a_request_leads_to_its_answer(
    host: &Entity,
    url: &str,
    reply: &Option<Reply>,
    r: Vec<Entity>,
)
    requires
        call_ensures(httpx::entities, (host, url, reply), r),
    ensures
        *reply is None ==> r@.len() == 0,
        *reply is Some ==> r@.len() == 1 && r@[0]@.value == (*reply)->0.final_url@
            && r@[0]@.metadata.member("status"@) == Some(
            JsonView::PosInt((*reply)->0.status as u64),
        ) && r@[0]@.metadata.member("requested_url"@) == Some(JsonView::Text(url@)),
{
    if let Some(answer) = *reply {
        law_an_answer_is_shown_field_by_field(host@, url@, answer);
        assert(r@[0]@.draft().value == r@[0]@.value);
    }
}

/// The id of the next query is one more than the last, and zero after the
/// greatest.
pub proof fn law_query_ids_count_up(id: u16)
    ensures
        id < 65535 ==> later_id(id, 1) == id + 1,
        id == 65535 ==> later_id(id, 1) == 0,
{
}

} // verus!
