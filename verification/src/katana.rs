//! Web crawling and endpoint discovery with ProjectDiscovery's `katana`.
use vstd::prelude::*;

use crate::entity::{
    drafts, entity_views, fresh, is_random_id, Confidence, Draft, Entity, EntityType, EntityView,
    RelationKind, RelationKindView, RelationView, FULL_CONFIDENCE,
};
use crate::error::{Error, ErrorView};
use crate::json::{
    json_text_array, json_text_or_null, opt_text, put_named, text_array, text_or_null, Json,
    JsonView,
};
use crate::plugin::{PluginConfig, ReconPlugin};
use crate::text::{copy_text, decimal, somes, texts, to_decimal};
use crate::tool::{
    choose_targets, chosen, invocation_views, missing_binary, positions, Invocation,
    InvocationView,
};

verus! {

/// Wraps ProjectDiscovery's `katana` for web crawling / endpoint discovery.
pub struct KatanaPlugin;

impl ReconPlugin for KatanaPlugin {
    open spec fn name_text(&self) -> Seq<char> {
        "katana"@
    }

    open spec fn binary_text(&self) -> Seq<char> {
        "katana"@
    }

    open spec fn inputs(&self) -> Seq<EntityType> {
        seq![EntityType::Url]
    }

    open spec fn outputs(&self) -> Seq<EntityType> {
        seq![EntityType::Endpoint]
    }

    open spec fn native(&self) -> bool {
        false
    }

    fn name(&self) -> (r: &str) {
        "katana"
    }

    fn required_binary(&self) -> (r: &str) {
        "katana"
    }

    fn input_types(&self) -> (r: Vec<EntityType>) {
        vec![EntityType::Url]
    }

    fn output_types(&self) -> (r: Vec<EntityType>) {
        vec![EntityType::Endpoint]
    }

    fn is_available(&self, found_on_path: bool) -> (r: bool) {
        found_on_path
    }
}

#[derive(Debug)]
pub struct KatanaRequest {
    pub endpoint: Option<String>,
    pub method: Option<String>,
}

#[derive(Debug)]
pub struct KatanaResponse {
    pub status_code: Option<u16>,
    pub technologies: Vec<String>,
}

/// One finding, as `katana` writes it.
#[derive(Debug)]
pub struct KatanaLine {
    pub endpoint: Option<String>,
    pub source: Option<String>,
    pub tag: Option<String>,
    pub attribute: Option<String>,
    pub request: Option<KatanaRequest>,
    pub response: Option<KatanaResponse>,
}

impl KatanaLine {
    /// The endpoint that was found: the one named at the top, or else the one
    /// of the request.
    pub open spec fn endpoint_found(self) -> Option<Seq<char>> {
        match self.endpoint {
            Some(s) => Some(s@),
            None => match self.request {
                Some(r) => opt_text(r.endpoint),
                None => None,
            },
        }
    }

    pub fn resolved_endpoint(&self) -> (r: Option<String>)
        ensures
            opt_text(r) == self.endpoint_found(),
    {
        match &self.endpoint {
            Some(s) => Some(s.clone()),
            None => match &self.request {
                Some(r) => match &r.endpoint {
                    Some(s) => Some(s.clone()),
                    None => None,
                },
                None => None,
            },
        }
    }
}

/// How deep to crawl where the configuration does not say.
pub const DEFAULT_DEPTH: u64 = 3;

/// How deep to crawl.
pub open spec fn depth_asked(config: JsonView) -> u64 {
    match config.number_member("depth"@) {
        Some(n) => n,
        None => DEFAULT_DEPTH,
    }
}

/// The arguments for one URL.
pub open spec fn arguments(url: Seq<char>, depth: u64, js_crawl: bool) -> Seq<Seq<char>> {
    let common = seq!["-u"@, url, "-d"@, decimal(depth as nat), "-jsonl"@, "-silent"@];
    if js_crawl {
        common.push("-jc"@)
    } else {
        common
    }
}

/// The calls that a list of entities asks for.
pub open spec fn calls(input: Seq<EntityView>, config: JsonView) -> Seq<InvocationView> {
    chosen(input, seq![EntityType::Url]).map_values(
        |i: int|
            InvocationView {
                target: i,
                args: arguments(
                    input[i].value,
                    depth_asked(config),
                    config.bool_member("js_crawl"@) == Some(true),
                ),
            },
    )
}

/// Decides which calls of the tool to make. Without a URL there are none, and
/// the tool need not be there.
pub fn plan(input: &Vec<Entity>, config: &PluginConfig, found_on_path: bool) -> (r: Result<
    Vec<Invocation>,
    Error,
>)
    ensures
        match r {
            Ok(plan) => (found_on_path || plan@.len() == 0) && invocation_views(plan@) == calls(
                entity_views(input@),
                config@,
            ),
            Err(e) => !found_on_path && calls(entity_views(input@), config@).len() > 0 && e@ == (
            ErrorView::MissingBinary { plugin: "katana"@, binary: "katana"@ }),
        },
{
    let kinds = vec![EntityType::Url];
    assert(kinds@ == seq![EntityType::Url]);
    let targets = choose_targets(input, &kinds);
    let ghost planned = calls(entity_views(input@), config@);
    assert(positions(targets@).len() == planned.len());
    let mut plan: Vec<Invocation> = Vec::new();
    if targets.len() == 0 {
        assert(invocation_views(plan@) == planned);
        return Ok(plan);
    }
    if !found_on_path {
        return Err(missing_binary("katana", "katana"));
    }
    let depth: u64 = match config.get_u64("depth") {
        Some(n) => n,
        None => DEFAULT_DEPTH,
    };
    let js_crawl = match config.get_bool("js_crawl") {
        Some(b) => b,
        None => false,
    };
    let mut i: usize = 0;
    while i < targets.len()
        invariant
            i <= targets.len(),
            depth == depth_asked(config@),
            js_crawl == (config@.bool_member("js_crawl"@) == Some(true)),
            planned == calls(entity_views(input@), config@),
            positions(targets@) == chosen(entity_views(input@), seq![EntityType::Url]),
            forall|k: int| 0 <= k < targets@.len() ==> #[trigger] targets@[k] < input@.len(),
            plan@.len() == i,
            forall|k: int| 0 <= k < i ==> (#[trigger] plan@[k])@ == planned[k],
        decreases targets.len() - i,
    {
        let target: usize = targets[i];
        assert(positions(targets@)[i as int] == target as int);
        let mut args: Vec<String> = Vec::new();
        args.push(copy_text("-u"));
        args.push(input[target].value.clone());
        args.push(copy_text("-d"));
        args.push(to_decimal(depth));
        args.push(copy_text("-jsonl"));
        args.push(copy_text("-silent"));
        if js_crawl {
            args.push(copy_text("-jc"));
        }
        assert(texts(args@) == arguments(input@[target as int].value@, depth, js_crawl));
        plan.push(Invocation { target, args });
        i += 1;
    }
    assert(invocation_views(plan@) == planned);
    Ok(plan)
}

/// A JSON number, or `null` where there is none.
pub open spec fn status_or_null(n: Option<u16>) -> JsonView {
    match n {
        Some(n) => JsonView::PosInt(n as u64),
        None => JsonView::Null,
    }
}

/// The detail of a finding.
pub open spec fn detail(line: KatanaLine) -> JsonView {
    JsonView::Object(
        map![
            "source"@ => text_or_null(opt_text(line.source)),
            "tag"@ => text_or_null(opt_text(line.tag)),
            "attribute"@ => text_or_null(opt_text(line.attribute)),
            "method"@ => text_or_null(match line.request {
                Some(r) => opt_text(r.method),
                None => None,
            }),
            "status_code"@ => status_or_null(match line.response {
                Some(r) => r.status_code,
                None => None,
            }),
            "technologies"@ => text_array(match line.response {
                Some(r) => texts(r.technologies@),
                None => Seq::empty(),
            }),
        ],
    )
}

/// What a finding says of the URL that was crawled, if it names an endpoint.
pub open spec fn finding(seed: EntityView, line: KatanaLine) -> Option<Draft> {
    match line.endpoint_found() {
        None => None,
        Some(endpoint) => Some(
            Draft {
                entity_type: EntityType::Endpoint,
                value: endpoint,
                source: "katana"@,
                confidence: Confidence { bits: FULL_CONFIDENCE },
                metadata: detail(line),
                relations: seq![
                    RelationView { target: seed.id, kind: RelationKindView::DiscoveredFrom },
                ],
            },
        ),
    }
}

/// What the findings that could be read say.
pub open spec fn findings(seed: EntityView, found: Seq<Option<KatanaLine>>) -> Seq<Draft> {
    somes(
        found.map_values(
            |l: Option<KatanaLine>|
                match l {
                    Some(line) => finding(seed, line),
                    None => None,
                },
        ),
    )
}

fn detail_of(line: &KatanaLine) -> (r: Json)
    ensures
        r@ == detail(*line),
{
    let mut members: Vec<(String, Json)> = Vec::new();
    put_named(&mut members, "source", json_text_or_null(&line.source));
    put_named(&mut members, "tag", json_text_or_null(&line.tag));
    put_named(&mut members, "attribute", json_text_or_null(&line.attribute));
    let method = match &line.request {
        Some(r) => json_text_or_null(&r.method),
        None => Json::Null,
    };
    put_named(&mut members, "method", method);
    let status_code = match &line.response {
        Some(r) => match r.status_code {
            Some(n) => Json::PosInt(n as u64),
            None => Json::Null,
        },
        None => Json::Null,
    };
    put_named(&mut members, "status_code", status_code);
    let technologies = match &line.response {
        Some(r) => json_text_array(&r.technologies),
        None => {
            let none: Vec<String> = Vec::new();
            assert(texts(none@) == Seq::<Seq<char>>::empty());
            json_text_array(&none)
        },
    };
    put_named(&mut members, "technologies", technologies);
    Json::Object(members)
}

fn endpoint(seed: &Entity, line: &KatanaLine) -> (r: Option<Entity>)
    ensures
        match r {
            Some(e) => finding(seed@, *line) == Some(e@.draft()) && is_random_id(e.id),
            None => finding(seed@, *line) is None,
        },
{
    let url = match line.resolved_endpoint() {
        Some(url) => url,
        None => return None,
    };
    let r = Entity::new(EntityType::Endpoint, url.as_str(), "katana").with_metadata(
        detail_of(line),
    ).with_relation(seed.id, RelationKind::DiscoveredFrom);
    assert(r@.relations == finding(seed@, *line)->0.relations);
    Some(r)
}

/// The entities for what the tool found. A line that could not be read or that
/// names no endpoint is passed over.
pub fn entities(seed: &Entity, found: &Vec<Option<KatanaLine>>) -> (r: Vec<Entity>)
    ensures
        drafts(r@) == findings(seed@, found@),
        fresh(r@),
{
    let ghost say = |l: Option<KatanaLine>|
        match l {
            Some(line) => finding(seed@, line),
            None => None,
        };
    let ghost said = found@.map_values(say);
    let mut r: Vec<Entity> = Vec::new();
    let mut i: usize = 0;
    assert(drafts(r@) == somes(said.take(0)));
    while i < found.len()
        invariant
            i <= found.len(),
            say == (|l: Option<KatanaLine>|
                match l {
                    Some(line) => finding(seed@, line),
                    None => None,
                }),
            said == found@.map_values(say),
            drafts(r@) == somes(said.take(i as int)),
            fresh(r@),
        decreases found.len() - i,
    {
        let ghost before = r@;
        proof {
            assert(said.take(i + 1).drop_last() == said.take(i as int));
            assert(said.take(i + 1).last() == say(found@[i as int]));
        }
        match &found[i] {
            Some(line) => match endpoint(seed, line) {
                Some(e) => {
                    r.push(e);
                    assert(drafts(r@) == drafts(before).push(e@.draft()));
                },
                None => {},
            },
            None => {},
        }
        i += 1;
    }
    assert(said.take(i as int) == said);
    r
}

} // verus!
