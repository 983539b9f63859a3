//! Passive subdomain enumeration with ProjectDiscovery's `subfinder`.
use vstd::prelude::*;

use crate::entity::{
    drafts, entity_views, fresh, is_random_id, Confidence, Draft, Entity, EntityType,
    EntityView, RelationKind, RelationKindView, RelationView, FULL_CONFIDENCE,
};
use crate::error::{Error, ErrorView};
use crate::json::{put_named, Json, JsonView};
use crate::plugin::{PluginConfig, ReconPlugin};
use crate::text::{copy_text, somes, texts};
use crate::tool::{
    choose_targets, chosen, invocation_views, missing_binary, positions, Invocation,
    InvocationView,
};

verus! {

/// Wraps ProjectDiscovery's `subfinder` for passive subdomain enumeration.
pub struct SubfinderPlugin;

impl ReconPlugin for SubfinderPlugin {
    open spec fn name_text(&self) -> Seq<char> {
        "subfinder"@
    }

    open spec fn binary_text(&self) -> Seq<char> {
        "subfinder"@
    }

    open spec fn inputs(&self) -> Seq<EntityType> {
        seq![EntityType::Domain]
    }

    open spec fn outputs(&self) -> Seq<EntityType> {
        seq![EntityType::Subdomain]
    }

    open spec fn native(&self) -> bool {
        false
    }

    fn name(&self) -> (r: &str) {
        "subfinder"
    }

    fn required_binary(&self) -> (r: &str) {
        "subfinder"
    }

    fn input_types(&self) -> (r: Vec<EntityType>) {
        vec![EntityType::Domain]
    }

    fn output_types(&self) -> (r: Vec<EntityType>) {
        vec![EntityType::Subdomain]
    }

    fn is_available(&self, found_on_path: bool) -> (r: bool) {
        found_on_path
    }
}

/// One finding, as `subfinder` writes it.
#[derive(Debug)]
pub struct SubfinderLine {
    pub host: String,
    pub source: Option<String>,
}

/// The arguments for one domain.
pub open spec fn arguments(domain: Seq<char>, all: bool) -> Seq<Seq<char>> {
    let common = seq!["-d"@, domain, "-json"@, "-silent"@];
    if all {
        common.push("-all"@)
    } else {
        common
    }
}

/// Whether every source is to be asked.
pub open spec fn asks_all(config: JsonView) -> bool {
    config.bool_member("all"@) == Some(true)
}

/// The calls that a list of entities asks for.
pub open spec fn calls(input: Seq<EntityView>, config: JsonView) -> Seq<InvocationView> {
    chosen(input, seq![EntityType::Domain]).map_values(
        |i: int| InvocationView { target: i, args: arguments(input[i].value, asks_all(config)) },
    )
}

/// Decides which calls of the tool to make.
pub fn plan(input: &Vec<Entity>, config: &PluginConfig, found_on_path: bool) -> (r: Result<
    Vec<Invocation>,
    Error,
>)
    ensures
        match r {
            Ok(plan) => found_on_path && invocation_views(plan@) == calls(
                entity_views(input@),
                config@,
            ),
            Err(e) => !found_on_path && e@ == (ErrorView::MissingBinary {
                plugin: "subfinder"@,
                binary: "subfinder"@,
            }),
        },
{
    if !found_on_path {
        return Err(missing_binary("subfinder", "subfinder"));
    }
    let all = match config.get_bool("all") {
        Some(b) => b,
        None => false,
    };
    let kinds = vec![EntityType::Domain];
    assert(kinds@ == seq![EntityType::Domain]);
    let targets = choose_targets(input, &kinds);
    let ghost planned = calls(entity_views(input@), config@);
    let mut plan: Vec<Invocation> = Vec::new();
    let mut i: usize = 0;
    while i < targets.len()
        invariant
            i <= targets.len(),
            all == asks_all(config@),
            planned == calls(entity_views(input@), config@),
            positions(targets@) == chosen(entity_views(input@), seq![EntityType::Domain]),
            forall|k: int| 0 <= k < targets@.len() ==> #[trigger] targets@[k] < input@.len(),
            plan@.len() == i,
            forall|k: int| 0 <= k < i ==> (#[trigger] plan@[k])@ == planned[k],
        decreases targets.len() - i,
    {
        let target: usize = targets[i];
        assert(positions(targets@)[i as int] == target as int);
        let mut args: Vec<String> = Vec::new();
        args.push(copy_text("-d"));
        args.push(input[target].value.clone());
        args.push(copy_text("-json"));
        args.push(copy_text("-silent"));
        if all {
            args.push(copy_text("-all"));
        }
        assert(texts(args@) == arguments(input@[target as int].value@, all));
        plan.push(Invocation { target, args });
        i += 1;
    }
    assert(invocation_views(plan@) == planned);
    Ok(plan)
}

/// What a finding says of the domain that was asked about.
pub open spec fn finding(domain: EntityView, line: SubfinderLine) -> Draft {
    Draft {
        entity_type: EntityType::Subdomain,
        value: line.host@,
        source: "subfinder"@,
        confidence: Confidence { bits: FULL_CONFIDENCE },
        metadata: JsonView::Object(
            map!["discovery_source"@ => JsonView::Text(match line.source {
                Some(s) => s@,
                None => "subfinder"@,
            })],
        ),
        relations: seq![
            RelationView { target: domain.id, kind: RelationKindView::DiscoveredFrom },
        ],
    }
}

/// What the findings that could be read say.
pub open spec fn findings(domain: EntityView, found: Seq<Option<SubfinderLine>>) -> Seq<Draft> {
    somes(
        found.map_values(
            |l: Option<SubfinderLine>|
                match l {
                    Some(line) => Some(finding(domain, line)),
                    None => None,
                },
        ),
    )
}

fn subdomain(domain: &Entity, line: &SubfinderLine) -> (r: Entity)
    ensures
        r@.draft() == finding(domain@, *line),
        is_random_id(r.id),
{
    let discovery_source = match &line.source {
        Some(s) => s.clone(),
        None => copy_text("subfinder"),
    };
    let mut members: Vec<(String, Json)> = Vec::new();
    put_named(&mut members, "discovery_source", Json::Text(discovery_source));
    let r = Entity::new(EntityType::Subdomain, line.host.as_str(), "subfinder").with_metadata(
        Json::Object(members),
    ).with_relation(domain.id, RelationKind::DiscoveredFrom);
    assert(r@.metadata == finding(domain@, *line).metadata);
    assert(r@.relations == finding(domain@, *line).relations);
    r
}

/// The entities for what the tool found. A line that could not be read is
/// passed over.
pub fn entities(domain: &Entity, found: &Vec<Option<SubfinderLine>>) -> (r: Vec<Entity>)
    ensures
        drafts(r@) == findings(domain@, found@),
        fresh(r@),
{
    let ghost say = |l: Option<SubfinderLine>|
        match l {
            Some(line) => Some(finding(domain@, line)),
            None => None,
        };
    let ghost said = found@.map_values(say);
    let mut r: Vec<Entity> = Vec::new();
    let mut i: usize = 0;
    assert(drafts(r@) == somes(said.take(0)));
    while i < found.len()
        invariant
            i <= found.len(),
            say == (|l: Option<SubfinderLine>|
                match l {
                    Some(line) => Some(finding(domain@, line)),
                    None => None,
                }),
            said == found@.map_values(say),
            drafts(r@) == somes(said.take(i as int)),
            fresh(r@),
        decreases found.len() - i,
    {
        let ghost before = r@;
        proof {
            assert(said.take(i + 1).drop_last() == said.take(i as int));
            assert(said.take(i + 1).last() == say(found@[i as int]));
        }
        match &found[i] {
            Some(line) => {
                let e = subdomain(domain, line);
                r.push(e);
                assert(drafts(r@) == drafts(before).push(e@.draft()));
            },
            None => {},
        }
        i += 1;
    }
    assert(said.take(i as int) == said);
    r
}

} // verus!
