//! HTTP probing: which URLs to try, and what the answers say.
use vstd::prelude::*;

use crate::entity::{
    entity_views, is_random_id, Confidence, Draft, Entity, EntityType, EntityView, RelationKind,
    RelationKindView, RelationView, FULL_CONFIDENCE,
};
use crate::json::{json_text_or_null, opt_text, put_named, text_or_null, Json, JsonView};
use crate::plugin::{PluginConfig, ReconPlugin};
use crate::text::{
    chars_of, copy_text, find_chars, find_from, lower, slice_chars, string_of, texts,
    to_lower, trim, trim_chars,
};
use crate::tool::{choose_targets, chosen, positions, strings_among, strings_of};

verus! {

/// Native HTTP probing. Requests each resolved host over the configured schemes
/// (https then http by default) and records whatever responds: status code,
/// final URL after redirects, page title, and a couple of identifying headers.
pub struct HttpxPlugin;

impl ReconPlugin for HttpxPlugin {
    open spec fn name_text(&self) -> Seq<char> {
        "httpx"@
    }

    open spec fn binary_text(&self) -> Seq<char> {
        "none (native HTTP client)"@
    }

    open spec fn inputs(&self) -> Seq<EntityType> {
        seq![EntityType::Domain, EntityType::Subdomain, EntityType::IpAddress]
    }

    open spec fn outputs(&self) -> Seq<EntityType> {
        seq![EntityType::Url]
    }

    open spec fn native(&self) -> bool {
        true
    }

    fn name(&self) -> (r: &str) {
        "httpx"
    }

    fn required_binary(&self) -> (r: &str) {
        "none (native HTTP client)"
    }

    fn input_types(&self) -> (r: Vec<EntityType>) {
        vec![EntityType::Domain, EntityType::Subdomain, EntityType::IpAddress]
    }

    fn output_types(&self) -> (r: Vec<EntityType>) {
        vec![EntityType::Url]
    }

    fn is_available(&self, found_on_path: bool) -> (r: bool) {
        true
    }
}

/// How long to wait for an answer where the configuration does not say.
pub const DEFAULT_TIMEOUT_SECS: u64 = 10;

/// How long to wait for an answer.
pub fn timeout_secs(config: &PluginConfig) -> (r: u64)
    ensures
        r == match config@.number_member("timeout_secs"@) {
            Some(n) => n,
            None => DEFAULT_TIMEOUT_SECS,
        },
{
    match config.get_u64("timeout_secs") {
        Some(n) => n,
        None => DEFAULT_TIMEOUT_SECS,
    }
}

/// The schemes to try: those that the configuration names, or https and http.
pub open spec fn schemes_asked(config: JsonView) -> Seq<Seq<char>> {
    let named = match config.array_member("schemes"@) {
        Some(items) => strings_among(items),
        None => Seq::empty(),
    };
    if named.len() == 0 {
        seq!["https"@, "http"@]
    } else {
        named
    }
}

/// The schemes to try.
pub fn schemes(config: &PluginConfig) -> (r: Vec<String>)
    ensures
        texts(r@) == schemes_asked(config@),
{
    let mut r: Vec<String> = match config.get_array("schemes") {
        Some(items) => strings_of(items),
        None => Vec::new(),
    };
    assert(texts(r@).len() == r@.len());
    if r.len() == 0 {
        r.push(copy_text("https"));
        r.push(copy_text("http"));
        assert(texts(r@) == seq!["https"@, "http"@]);
    }
    r
}

/// One request: the position of the host it is about, and the URL.
pub struct Probe {
    pub host: usize,
    pub url: String,
}

/// The mathematical model of a request.
pub struct ProbeView {
    pub host: int,
    pub url: Seq<char>,
}

impl View for Probe {
    type V = ProbeView;

    open spec fn view(&self) -> ProbeView {
        ProbeView { host: self.host as int, url: self.url@ }
    }
}

/// The models of a list of requests.
pub open spec fn probe_views(v: Seq<Probe>) -> Seq<ProbeView> {
    v.map_values(|p: Probe| p@)
}

/// The requests for one host, one for each scheme.
pub open spec fn host_probes(host: int, value: Seq<char>, schemes: Seq<Seq<char>>) -> Seq<
    ProbeView,
> {
    schemes.map_values(|s: Seq<char>| ProbeView { host, url: s + "://"@ + value })
}

/// The requests for the given hosts, host by host.
pub open spec fn probes_for(
    input: Seq<EntityView>,
    hosts: Seq<int>,
    schemes: Seq<Seq<char>>,
) -> Seq<ProbeView>
    decreases hosts.len(),
{
    if hosts.len() == 0 {
        Seq::empty()
    } else {
        probes_for(input, hosts.drop_last(), schemes) + host_probes(
            hosts.last(),
            input[hosts.last()].value,
            schemes,
        )
    }
}

/// The requests to make.
pub fn probes(input: &Vec<Entity>, config: &PluginConfig) -> (r: Vec<Probe>)
    ensures
        probe_views(r@) == probes_for(
            entity_views(input@),
            chosen(
                entity_views(input@),
                seq![EntityType::Domain, EntityType::Subdomain, EntityType::IpAddress],
            ),
            schemes_asked(config@),
        ),
{
    let kinds = vec![EntityType::Domain, EntityType::Subdomain, EntityType::IpAddress];
    assert(kinds@ == seq![EntityType::Domain, EntityType::Subdomain, EntityType::IpAddress]);
    let hosts = choose_targets(input, &kinds);
    let names = schemes(config);
    let ghost views = entity_views(input@);
    let ghost at = positions(hosts@);
    let ghost said = texts(names@);
    let mut r: Vec<Probe> = Vec::new();
    let mut i: usize = 0;
    assert(probe_views(r@) == probes_for(views, at.take(0), said));
    while i < hosts.len()
        invariant
            i <= hosts.len(),
            views == entity_views(input@),
            at == positions(hosts@),
            said == texts(names@),
            forall|k: int| 0 <= k < hosts@.len() ==> #[trigger] hosts@[k] < input@.len(),
            probe_views(r@) == probes_for(views, at.take(i as int), said),
        decreases hosts.len() - i,
    {
        let host: usize = hosts[i];
        let ghost front = probe_views(r@);
        let ghost here = host_probes(host as int, views[host as int].value, said);
        proof {
            assert(at.take(i + 1).drop_last() == at.take(i as int));
            assert(at.take(i + 1).last() == host as int);
        }
        let mut k: usize = 0;
        assert(front + here.take(0) == front);
        while k < names.len()
            invariant
                k <= names.len(),
                host < input@.len(),
                views == entity_views(input@),
                said == texts(names@),
                here == host_probes(host as int, views[host as int].value, said),
                probe_views(r@) == front + here.take(k as int),
            decreases names.len() - k,
        {
            let ghost before = r@;
            let mut url = names[k].clone();
            url.append("://");
            url.append(input[host].value.as_str());
            let p = Probe { host, url };
            r.push(p);
            proof {
                assert(p@ == here[k as int]);
                assert(probe_views(r@) == probe_views(before).push(p@));
                assert(here.take(k + 1) == here.take(k as int).push(here[k as int]));
                assert(front + here.take(k + 1) == (front + here.take(k as int)).push(
                    here[k as int],
                ));
            }
            k += 1;
        }
        assert(here.take(k as int) == here);
        i += 1;
    }
    assert(at.take(i as int) == at);
    r
}

/// What a server answered: the status, the URL after redirects, two headers,
/// the announced length and the body.
#[derive(Debug)]
pub struct Reply {
    pub status: u16,
    pub final_url: String,
    pub server: Option<String>,
    pub powered_by: Option<String>,
    pub content_length: Option<u64>,
    pub body: String,
}

/// The text between the first title tag of a page and the end of the title.
pub open spec fn title(body: Seq<char>) -> Option<Seq<char>> {
    match find_from(lower(body), "<title"@, 0) {
        None => None,
        Some(tag) => match find_from(body, seq!['>'], tag) {
            None => None,
            Some(open) => match find_from(lower(body), "</title>"@, open + 1) {
                None => None,
                Some(close) => {
                    let text = trim(body.subrange(open + 1, close));
                    if text.len() > 0 {
                        Some(text)
                    } else {
                        None
                    }
                },
            },
        },
    }
}

/// Pulls the text out of the first `<title>...</title>` in an HTML body.
/// Deliberately not a real HTML parser: recon only needs a best-effort page
/// title, not spec-compliant markup handling.
pub fn extract_title(body: &str) -> (r: Option<String>)
    ensures
        opt_text(r) == title(body@),
{
    let text = chars_of(body);
    let lowered = to_lower(&text);
    assert(lowered@.len() == text@.len());
    let tag: usize = match find_chars(&lowered, &chars_of("<title"), 0) {
        Some(i) => i,
        None => return None,
    };
    let end = vec!['>'];
    assert(end@ == seq!['>']);
    let open: usize = match find_chars(&text, &end, tag) {
        Some(i) => i,
        None => return None,
    };
    let close: usize = match find_chars(&lowered, &chars_of("</title>"), open + 1) {
        Some(i) => i,
        None => return None,
    };
    let inner = trim_chars(&slice_chars(&text, open + 1, close));
    if inner.len() == 0 {
        None
    } else {
        Some(string_of(&inner))
    }
}

/// A JSON number, or `null` where there is none.
pub open spec fn length_or_null(n: Option<u64>) -> JsonView {
    match n {
        Some(n) => JsonView::PosInt(n),
        None => JsonView::Null,
    }
}

/// What an answer says of the host that was asked.
pub open spec fn page_draft(host: EntityView, url: Seq<char>, reply: Reply) -> Draft {
    Draft {
        entity_type: EntityType::Url,
        value: reply.final_url@,
        source: "httpx"@,
        confidence: Confidence { bits: FULL_CONFIDENCE },
        metadata: JsonView::Object(
            map![
                "requested_url"@ => JsonView::Text(url),
                "status"@ => JsonView::PosInt(reply.status as u64),
                "title"@ => text_or_null(title(reply.body@)),
                "server"@ => text_or_null(opt_text(reply.server)),
                "x_powered_by"@ => text_or_null(opt_text(reply.powered_by)),
                "content_length"@ => length_or_null(reply.content_length),
            ],
        ),
        relations: seq![
            RelationView { target: host.id, kind: RelationKindView::DiscoveredFrom },
        ],
    }
}

/// The entity for an answer.
pub fn page(host: &Entity, url: &str, reply: &Reply) -> (r: Entity)
    ensures
        r@.draft() == page_draft(host@, url@, *reply),
        is_random_id(r.id),
{
    let mut members: Vec<(String, Json)> = Vec::new();
    put_named(&mut members, "requested_url", Json::Text(copy_text(url)));
    put_named(&mut members, "status", Json::PosInt(reply.status as u64));
    put_named(&mut members, "title", json_text_or_null(&extract_title(reply.body.as_str())));
    put_named(&mut members, "server", json_text_or_null(&reply.server));
    put_named(&mut members, "x_powered_by", json_text_or_null(&reply.powered_by));
    let content_length = match reply.content_length {
        Some(n) => Json::PosInt(n),
        None => Json::Null,
    };
    put_named(&mut members, "content_length", content_length);
    let r = Entity::new(EntityType::Url, reply.final_url.as_str(), "httpx").with_metadata(
        Json::Object(members),
    ).with_relation(host.id, RelationKind::DiscoveredFrom);
    assert(r@.metadata == page_draft(host@, url@, *reply).metadata);
    assert(r@.relations == page_draft(host@, url@, *reply).relations);
    r
}

/// The entities for a request: one if there was an answer. That there was none
/// just means that the scheme is not live on this host.
pub fn entities(host: &Entity, url: &str, reply: &Option<Reply>) -> (r: Vec<Entity>)
    ensures
        match *reply {
            Some(answer) => r@.len() == 1 && r@[0]@.draft() == page_draft(host@, url@, answer)
                && is_random_id(r@[0].id),
            None => r@.len() == 0,
        },
{
    let mut found: Vec<Entity> = Vec::new();
    if let Some(answer) = reply {
        found.push(page(host, url, answer));
    }
    found
}

/// Every host is tried once with every scheme.
pub proof fn law_every_host_is_tried_with_every_scheme(
    input: Seq<EntityView>,
    hosts: Seq<int>,
    schemes: Seq<Seq<char>>,
    h: int,
    s: int,
)
    requires
        0 <= h < hosts.len(),
        0 <= s < schemes.len(),
    ensures
        probes_for(input, hosts, schemes).contains(
            ProbeView { host: hosts[h], url: schemes[s] + "://"@ + input[hosts[h]].value },
        ),
        probes_for(input, hosts, schemes).len() == hosts.len() * schemes.len(),
    decreases hosts.len(),
{
    let front = probes_for(input, hosts.drop_last(), schemes);
    let all = probes_for(input, hosts, schemes);
    let wanted = ProbeView { host: hosts[h], url: schemes[s] + "://"@ + input[hosts[h]].value };
    lemma_probe_count(input, hosts, schemes);
    if h == hosts.len() - 1 {
        assert(all[front.len() + s] == wanted);
    } else {
        law_every_host_is_tried_with_every_scheme(input, hosts.drop_last(), schemes, h, s);
        assert(hosts.drop_last()[h] == hosts[h]);
        let at = front.index_of(wanted);
        assert(all[at] == wanted);
    }
}

proof fn lemma_probe_count(input: Seq<EntityView>, hosts: Seq<int>, schemes: Seq<Seq<char>>)
    ensures
        probes_for(input, hosts, schemes).len() == hosts.len() * schemes.len(),
    decreases hosts.len(),
{
    if hosts.len() > 0 {
        lemma_probe_count(input, hosts.drop_last(), schemes);
        assert((hosts.len() - 1) * schemes.len() + schemes.len() == hosts.len() * schemes.len())
            by (nonlinear_arith);
    }
}

} // verus!
