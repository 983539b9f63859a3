//! Template-driven vulnerability scanning with ProjectDiscovery's `nuclei`.
use vstd::prelude::*;

use crate::entity::{
    drafts, entity_views, fresh, is_random_id, Confidence, Draft, Entity, EntityType, EntityView,
    RelationKind, RelationKindView, RelationView, FULL_CONFIDENCE,
};
use crate::error::{Error, ErrorView};
use crate::json::{
    json_text_array, json_text_or_null, opt_text, put_named, text_array, text_or_null, Json,
    JsonView,
};
use crate::plugin::{PluginConfig, ReconPlugin};
use crate::text::{copy_text, join, join_texts, somes, texts};
use crate::tool::{
    choose_targets, chosen, invocation_views, missing_binary, positions, strings_among, strings_of,
    Invocation, InvocationView,
};

verus! {

/// Wraps ProjectDiscovery's `nuclei` for template-driven vulnerability
/// scanning.
pub struct NucleiPlugin;

impl ReconPlugin for NucleiPlugin {
    open spec fn name_text(&self) -> Seq<char> {
        "nuclei"@
    }

    open spec fn binary_text(&self) -> Seq<char> {
        "nuclei"@
    }

    open spec fn inputs(&self) -> Seq<EntityType> {
        seq![EntityType::Url]
    }

    open spec fn outputs(&self) -> Seq<EntityType> {
        seq![EntityType::Vulnerability]
    }

    open spec fn native(&self) -> bool {
        false
    }

    fn name(&self) -> (r: &str) {
        "nuclei"
    }

    fn required_binary(&self) -> (r: &str) {
        "nuclei"
    }

    fn input_types(&self) -> (r: Vec<EntityType>) {
        vec![EntityType::Url]
    }

    fn output_types(&self) -> (r: Vec<EntityType>) {
        vec![EntityType::Vulnerability]
    }

    fn is_available(&self, found_on_path: bool) -> (r: bool) {
        found_on_path
    }
}

#[derive(Debug)]
pub struct NucleiInfo {
    pub name: Option<String>,
    pub severity: Option<String>,
    pub tags: Vec<String>,
    pub description: Option<String>,
}

/// One finding, as `nuclei` writes it.
#[derive(Debug)]
pub struct NucleiLine {
    pub template_id: Option<String>,
    pub info: Option<NucleiInfo>,
    pub host: Option<String>,
    pub matched_at: Option<String>,
    pub ip: Option<String>,
    pub extracted_results: Vec<String>,
}

/// The strings of a list in the configuration, with commas between them.
pub open spec fn listed(config: JsonView, key: Seq<char>) -> Option<Seq<char>> {
    match config.array_member(key) {
        Some(items) => Some(join(strings_among(items), ","@)),
        None => None,
    }
}

fn list(config: &PluginConfig, key: &str) -> (r: Option<String>)
    ensures
        opt_text(r) == listed(config@, key@),
{
    match config.get_array(key) {
        Some(items) => Some(join_texts(&strings_of(items), ",")),
        None => None,
    }
}

/// An option with its value, where there is one.
pub open spec fn flagged(flag: Seq<char>, value: Option<Seq<char>>) -> Seq<Seq<char>> {
    match value {
        Some(v) => seq![flag, v],
        None => Seq::empty(),
    }
}

/// The arguments for one URL.
pub open spec fn arguments(
    url: Seq<char>,
    severity: Option<Seq<char>>,
    tags: Option<Seq<char>>,
) -> Seq<Seq<char>> {
    seq!["-u"@, url, "-jsonl"@, "-silent"@] + flagged("-severity"@, severity) + flagged(
        "-tags"@,
        tags,
    )
}

/// The calls that a list of entities asks for.
pub open spec fn calls(input: Seq<EntityView>, config: JsonView) -> Seq<InvocationView> {
    chosen(input, seq![EntityType::Url]).map_values(
        |i: int|
            InvocationView {
                target: i,
                args: arguments(
                    input[i].value,
                    listed(config, "severity"@),
                    listed(config, "tags"@),
                ),
            },
    )
}

/// Decides which calls of the tool to make. Without a URL there are none, and
/// the tool need not be there.
pub fn plan(input: &Vec<Entity>, config: &PluginConfig, found_on_path: bool) -> (r: Result<
    Vec<Invocation>,
    Error,
>)
    ensures
        match r {
            Ok(plan) => (found_on_path || plan@.len() == 0) && invocation_views(plan@) == calls(
                entity_views(input@),
                config@,
            ),
            Err(e) => !found_on_path && calls(entity_views(input@), config@).len() > 0 && e@ == (
            ErrorView::MissingBinary { plugin: "nuclei"@, binary: "nuclei"@ }),
        },
{
    let kinds = vec![EntityType::Url];
    assert(kinds@ == seq![EntityType::Url]);
    let targets = choose_targets(input, &kinds);
    let ghost planned = calls(entity_views(input@), config@);
    assert(positions(targets@).len() == planned.len());
    let mut plan: Vec<Invocation> = Vec::new();
    if targets.len() == 0 {
        assert(invocation_views(plan@) == planned);
        return Ok(plan);
    }
    if !found_on_path {
        return Err(missing_binary("nuclei", "nuclei"));
    }
    let severity = list(config, "severity");
    let tags = list(config, "tags");
    let mut i: usize = 0;
    while i < targets.len()
        invariant
            i <= targets.len(),
            opt_text(severity) == listed(config@, "severity"@),
            opt_text(tags) == listed(config@, "tags"@),
            planned == calls(entity_views(input@), config@),
            positions(targets@) == chosen(entity_views(input@), seq![EntityType::Url]),
            forall|k: int| 0 <= k < targets@.len() ==> #[trigger] targets@[k] < input@.len(),
            plan@.len() == i,
            forall|k: int| 0 <= k < i ==> (#[trigger] plan@[k])@ == planned[k],
        decreases targets.len() - i,
    {
        let target: usize = targets[i];
        assert(positions(targets@)[i as int] == target as int);
        let mut args: Vec<String> = Vec::new();
        args.push(copy_text("-u"));
        args.push(input[target].value.clone());
        args.push(copy_text("-jsonl"));
        args.push(copy_text("-silent"));
        if let Some(s) = &severity {
            args.push(copy_text("-severity"));
            args.push(s.clone());
        }
        if let Some(t) = &tags {
            args.push(copy_text("-tags"));
            args.push(t.clone());
        }
        assert(texts(args@) == arguments(
            input@[target as int].value@,
            opt_text(severity),
            opt_text(tags),
        ));
        plan.push(Invocation { target, args });
        i += 1;
    }
    assert(invocation_views(plan@) == planned);
    Ok(plan)
}

/// Where a finding was made: where it says, or else at the URL that was asked
/// about.
pub open spec fn place(seed: EntityView, line: NucleiLine) -> Seq<char> {
    match line.matched_at {
        Some(s) => s@,
        None => seed.value,
    }
}

/// The detail of a finding.
pub open spec fn detail(seed: EntityView, template_id: Seq<char>, line: NucleiLine) -> JsonView {
    JsonView::Object(
        map![
            "template_id"@ => JsonView::Text(template_id),
            "name"@ => text_or_null(match line.info {
                Some(i) => opt_text(i.name),
                None => None,
            }),
            "severity"@ => text_or_null(match line.info {
                Some(i) => opt_text(i.severity),
                None => None,
            }),
            "tags"@ => text_array(match line.info {
                Some(i) => texts(i.tags@),
                None => Seq::empty(),
            }),
            "description"@ => text_or_null(match line.info {
                Some(i) => opt_text(i.description),
                None => None,
            }),
            "host"@ => text_or_null(opt_text(line.host)),
            "matched_at"@ => JsonView::Text(place(seed, line)),
            "ip"@ => text_or_null(opt_text(line.ip)),
            "extracted_results"@ => text_array(texts(line.extracted_results@)),
        ],
    )
}

/// What a finding says of the URL that was scanned, if it names a template.
pub open spec fn finding(seed: EntityView, line: NucleiLine) -> Option<Draft> {
    match line.template_id {
        None => None,
        Some(template_id) => Some(
            Draft {
                entity_type: EntityType::Vulnerability,
                value: template_id@ + "@"@ + place(seed, line),
                source: "nuclei"@,
                confidence: Confidence { bits: FULL_CONFIDENCE },
                metadata: detail(seed, template_id@, line),
                relations: seq![
                    RelationView { target: seed.id, kind: RelationKindView::HasVulnerability },
                ],
            },
        ),
    }
}

/// What the findings that could be read say.
pub open spec fn findings(seed: EntityView, found: Seq<Option<NucleiLine>>) -> Seq<Draft> {
    somes(
        found.map_values(
            |l: Option<NucleiLine>|
                match l {
                    Some(line) => finding(seed, line),
                    None => None,
                },
        ),
    )
}

fn detail_of(seed: &Entity, template_id: &String, line: &NucleiLine) -> (r: Json)
    ensures
        r@ == detail(seed@, template_id@, *line),
{
    let mut members: Vec<(String, Json)> = Vec::new();
    put_named(&mut members, "template_id", Json::Text(template_id.clone()));
    let none: Vec<String> = Vec::new();
    assert(texts(none@) == Seq::<Seq<char>>::empty());
    let (name, severity, tags, description) = match &line.info {
        Some(i) => (
            json_text_or_null(&i.name),
            json_text_or_null(&i.severity),
            json_text_array(&i.tags),
            json_text_or_null(&i.description),
        ),
        None => (Json::Null, Json::Null, json_text_array(&none), Json::Null),
    };
    put_named(&mut members, "name", name);
    put_named(&mut members, "severity", severity);
    put_named(&mut members, "tags", tags);
    put_named(&mut members, "description", description);
    put_named(&mut members, "host", json_text_or_null(&line.host));
    let matched_at = match &line.matched_at {
        Some(s) => s.clone(),
        None => seed.value.clone(),
    };
    put_named(&mut members, "matched_at", Json::Text(matched_at));
    put_named(&mut members, "ip", json_text_or_null(&line.ip));
    put_named(&mut members, "extracted_results", json_text_array(&line.extracted_results));
    Json::Object(members)
}

fn vulnerability(seed: &Entity, line: &NucleiLine) -> (r: Option<Entity>)
    ensures
        match r {
            Some(e) => finding(seed@, *line) == Some(e@.draft()) && is_random_id(e.id),
            None => finding(seed@, *line) is None,
        },
{
    let template_id = match &line.template_id {
        Some(t) => t,
        None => return None,
    };
    let mut value = template_id.clone();
    value.append("@");
    match &line.matched_at {
        Some(s) => value.append(s.as_str()),
        None => value.append(seed.value.as_str()),
    }
    let r = Entity::new(EntityType::Vulnerability, value.as_str(), "nuclei").with_metadata(
        detail_of(seed, template_id, line),
    ).with_relation(seed.id, RelationKind::HasVulnerability);
    assert(r@.relations == finding(seed@, *line)->0.relations);
    Some(r)
}

/// The entities for what the tool found. A line that could not be read or that
/// names no template is passed over.
pub fn entities(seed: &Entity, found: &Vec<Option<NucleiLine>>) -> (r: Vec<Entity>)
    ensures
        drafts(r@) == findings(seed@, found@),
        fresh(r@),
{
    let ghost say = |l: Option<NucleiLine>|
        match l {
            Some(line) => finding(seed@, line),
            None => None,
        };
    let ghost said = found@.map_values(say);
    let mut r: Vec<Entity> = Vec::new();
    let mut i: usize = 0;
    assert(drafts(r@) == somes(said.take(0)));
    while i < found.len()
        invariant
            i <= found.len(),
            say == (|l: Option<NucleiLine>|
                match l {
                    Some(line) => finding(seed@, line),
                    None => None,
                }),
            said == found@.map_values(say),
            drafts(r@) == somes(said.take(i as int)),
            fresh(r@),
        decreases found.len() - i,
    {
        let ghost before = r@;
        proof {
            assert(said.take(i + 1).drop_last() == said.take(i as int));
            assert(said.take(i + 1).last() == say(found@[i as int]));
        }
        match &found[i] {
            Some(line) => match vulnerability(seed, line) {
                Some(e) => {
                    r.push(e);
                    assert(drafts(r@) == drafts(before).push(e@.draft()));
                },
                None => {},
            },
            None => {},
        }
        i += 1;
    }
    assert(said.take(i as int) == said);
    r
}

} // verus!
