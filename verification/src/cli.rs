//! What the command line tool decides and says.
use vstd::prelude::*;

use crate::entity::{is_random_id, plain_draft, Entity, EntityType};
use crate::pipeline::{
    lemma_some_in_prefix, PipelineDef, PipelineView, StageDef, StageView, SEED_INPUT,
};
use crate::plugin::{plugin_at, PluginRegistry, ReconPlugin};
use crate::text::{
    chars_of, copy_text, decimal, first_some, join, join_texts, lemma_somes_push, same_text, somes,
    texts, to_decimal,
};
use crate::tool::is_among;

verus! {

/// The formats that results can be exported in.
#[derive(Debug, Clone, Copy, PartialEq, Eq, Structural)]
pub enum ExportFormat {
    Json,
    Csv,
    Markdown,
}

/// The kind of a seed: an IP address, a CIDR range, or (the common case) a
/// domain name.
pub open spec fn seed_type(target: Seq<char>, is_ip: bool) -> EntityType {
    if is_ip {
        EntityType::IpAddress
    } else if target.contains('/') {
        EntityType::Cidr
    } else {
        EntityType::Domain
    }
}

/// The entity for a raw seed string, given whether it is an IP address.
pub fn classify_seed(target: &str, is_ip: bool) -> (r: Entity)
    ensures
        r@.draft() == plain_draft(seed_type(target@, is_ip), target@, "seed"@),
        is_random_id(r.id),
{
    if is_ip {
        return Entity::new(EntityType::IpAddress, target, "seed");
    }
    let chars = chars_of(target);
    let mut i: usize = 0;
    while i < chars.len()
        invariant
            i <= chars.len(),
            chars@ == target@,
            !is_ip,
            forall|k: int| 0 <= k < i ==> chars@[k] != '/',
        decreases chars.len() - i,
    {
        if chars[i] == '/' {
            return Entity::new(EntityType::Cidr, target, "seed");
        }
        i += 1;
    }
    Entity::new(EntityType::Domain, target, "seed")
}

/// The complaint about a stage whose plugin is not there.
pub open spec fn plugin_complaint<P: ReconPlugin>(s: StageView, plugins: Seq<P>) -> Option<
    Seq<char>,
> {
    if plugin_at(plugins, s.plugin) is None {
        Some("stage '"@ + s.name + "' references unknown plugin '"@ + s.plugin + "'"@)
    } else {
        None
    }
}

/// The complaint about the first stage whose plugin is not there.
pub fn unknown_plugin<P: ReconPlugin>(pipeline: &PipelineDef, registry: &PluginRegistry<P>) -> (r:
    Option<String>)
    ensures
        crate::json::opt_text(r) == first_some(
            pipeline@.stages.map_values(|s: StageView| plugin_complaint(s, registry@)),
        ),
{
    let ghost p = pipeline@;
    let ghost found = p.stages.map_values(|s: StageView| plugin_complaint(s, registry@));
    let mut i: usize = 0;
    assert(first_some(found.take(0)) is None);
    while i < pipeline.stages.len()
        invariant
            i <= pipeline.stages.len(),
            p == pipeline@,
            found == p.stages.map_values(|s: StageView| plugin_complaint(s, registry@)),
            first_some(found.take(i as int)) is None,
        decreases pipeline.stages.len() - i,
    {
        let stage = &pipeline.stages[i];
        proof {
            assert(p.stages[i as int] == stage@);
            assert(found.take(i + 1).drop_last() == found.take(i as int));
            assert(found.take(i + 1).last() == plugin_complaint(stage@, registry@));
        }
        if !registry.contains(stage.plugin.as_str()) {
            let mut m = copy_text("stage '");
            m.append(stage.name.as_str());
            m.append("' references unknown plugin '");
            m.append(stage.plugin.as_str());
            m.append("'");
            proof {
                assert(first_some(found.take(i + 1)) == Some(m@));
                lemma_some_in_prefix(found, i + 1);
            }
            return Some(m);
        }
        i += 1;
    }
    assert(found.take(i as int) == found);
    None
}

impl EntityType {
    /// The name of the kind as it is written in the code.
    pub open spec fn variant_name(self) -> Seq<char> {
        match self {
            EntityType::Domain => "Domain"@,
            EntityType::Subdomain => "Subdomain"@,
            EntityType::IpAddress => "IpAddress"@,
            EntityType::Port => "Port"@,
            EntityType::Service => "Service"@,
            EntityType::Technology => "Technology"@,
            EntityType::Url => "Url"@,
            EntityType::Endpoint => "Endpoint"@,
            EntityType::Certificate => "Certificate"@,
            EntityType::EmailAddress => "EmailAddress"@,
            EntityType::Asn => "Asn"@,
            EntityType::Cidr => "Cidr"@,
            EntityType::Vulnerability => "Vulnerability"@,
            EntityType::Screenshot => "Screenshot"@,
        }
    }
}

fn variant(t: EntityType) -> (r: String)
    ensures
        r@ == t.variant_name(),
{
    copy_text(
        match t {
            EntityType::Domain => "Domain",
            EntityType::Subdomain => "Subdomain",
            EntityType::IpAddress => "IpAddress",
            EntityType::Port => "Port",
            EntityType::Service => "Service",
            EntityType::Technology => "Technology",
            EntityType::Url => "Url",
            EntityType::Endpoint => "Endpoint",
            EntityType::Certificate => "Certificate",
            EntityType::EmailAddress => "EmailAddress",
            EntityType::Asn => "Asn",
            EntityType::Cidr => "Cidr",
            EntityType::Vulnerability => "Vulnerability",
            EntityType::Screenshot => "Screenshot",
        },
    )
}

/// A list of kinds in square brackets.
pub open spec fn kind_list(kinds: Seq<EntityType>) -> Seq<char> {
    "["@ + join(kinds.map_values(|t: EntityType| t.variant_name()), ", "@) + "]"@
}

fn list_kinds(kinds: &Vec<EntityType>) -> (r: String)
    ensures
        r@ == kind_list(kinds@),
{
    let mut names: Vec<String> = Vec::new();
    let mut i: usize = 0;
    while i < kinds.len()
        invariant
            i <= kinds.len(),
            names@.len() == i,
            forall|k: int| 0 <= k < i ==> (#[trigger] names@[k])@ == kinds@[k].variant_name(),
        decreases kinds.len() - i,
    {
        names.push(variant(kinds[i]));
        i += 1;
    }
    assert(texts(names@) == kinds@.map_values(|t: EntityType| t.variant_name()));
    let mut r = copy_text("[");
    r.append(join_texts(&names, ", ").as_str());
    r.append("]");
    r
}

/// Whether something that one plugin produces is accepted by another.
pub open spec fn fits_into(produces: Seq<EntityType>, accepts: Seq<EntityType>) -> bool {
    exists|k: int| 0 <= k < produces.len() && accepts.contains(#[trigger] produces[k])
}

fn any_accepted(produces: &Vec<EntityType>, accepts: &Vec<EntityType>) -> (r: bool)
    ensures
        r == fits_into(produces@, accepts@),
{
    let mut i: usize = 0;
    while i < produces.len()
        invariant
            i <= produces.len(),
            forall|k: int| 0 <= k < i ==> !accepts@.contains(#[trigger] produces@[k]),
        decreases produces.len() - i,
    {
        if is_among(produces[i], accepts) {
            return true;
        }
        i += 1;
    }
    false
}

/// What is wrong with a stage, if anything: its plugin is not there, its input
/// is no stage, or what its input stage produces is nothing that its plugin
/// accepts.
pub open spec fn stage_issue<P: ReconPlugin>(
    p: PipelineView,
    plugins: Seq<P>,
    s: StageView,
) -> Option<Seq<char>> {
    let head = "stage '"@ + s.name + "': "@;
    match plugin_at(plugins, s.plugin) {
        None => Some(head + "unknown plugin '"@ + s.plugin + "'"@),
        Some(a) => if s.input == SEED_INPUT@ {
            None
        } else {
            match p.stage_at(s.input) {
                None => Some(head + "input '"@ + s.input + "' is not a known stage"@),
                Some(u) => match plugin_at(plugins, p.stages[u].plugin) {
                    None => None,
                    Some(b) => if fits_into(plugins[b].outputs(), plugins[a].inputs()) {
                        None
                    } else {
                        Some(
                            head + "plugin '"@ + plugins[a].name_text() + "' accepts "@ + kind_list(
                                plugins[a].inputs(),
                            ) + " but upstream stage '"@ + p.stages[u].name + "' (plugin '"@
                                + plugins[b].name_text() + "') produces "@ + kind_list(
                                plugins[b].outputs(),
                            ),
                        )
                    },
                },
            }
        },
    }
}

fn find_issue<P: ReconPlugin>(
    pipeline: &PipelineDef,
    registry: &PluginRegistry<P>,
    stage: &StageDef,
) -> (r: Option<String>)
    ensures
        crate::json::opt_text(r) == stage_issue(pipeline@, registry@, stage@),
{
    let mut m = copy_text("stage '");
    m.append(stage.name.as_str());
    m.append("': ");
    let plugin = match registry.get(stage.plugin.as_str()) {
        Ok(plugin) => plugin,
        Err(_) => {
            m.append("unknown plugin '");
            m.append(stage.plugin.as_str());
            m.append("'");
            return Some(m);
        },
    };
    if same_text(stage.input.as_str(), SEED_INPUT) {
        return None;
    }
    let upstream = match pipeline.stage(stage.input.as_str()) {
        Some(upstream) => upstream,
        None => {
            m.append("input '");
            m.append(stage.input.as_str());
            m.append("' is not a known stage");
            return Some(m);
        },
    };
    let upstream_plugin = match registry.get(upstream.plugin.as_str()) {
        Ok(plugin) => plugin,
        Err(_) => return None,
    };
    let produces = upstream_plugin.output_types();
    let accepts = plugin.input_types();
    if any_accepted(&produces, &accepts) {
        return None;
    }
    m.append("plugin '");
    m.append(plugin.name());
    m.append("' accepts ");
    m.append(list_kinds(&accepts).as_str());
    m.append(" but upstream stage '");
    m.append(upstream.name.as_str());
    m.append("' (plugin '");
    m.append(upstream_plugin.name());
    m.append("') produces ");
    m.append(list_kinds(&produces).as_str());
    Some(m)
}

/// Everything that is wrong with the stages of a pipeline, stage by stage.
pub open spec fn all_issues<P: ReconPlugin>(p: PipelineView, plugins: Seq<P>) -> Seq<Seq<char>> {
    somes(p.stages.map_values(|s: StageView| stage_issue(p, plugins, s)))
}

/// Everything that is wrong with the stages of a pipeline, stage by stage.
pub fn find_issues<P: ReconPlugin>(pipeline: &PipelineDef, registry: &PluginRegistry<P>) -> (r: Vec<
    String,
>)
    ensures
        texts(r@) == all_issues(pipeline@, registry@),
{
    let ghost p = pipeline@;
    let ghost look = |s: StageView| stage_issue(p, registry@, s);
    let mut r: Vec<String> = Vec::new();
    let mut i: usize = 0;
    assert(texts(r@) == somes(p.stages.take(0).map_values(look)));
    while i < pipeline.stages.len()
        invariant
            i <= pipeline.stages.len(),
            p == pipeline@,
            look == (|s: StageView| stage_issue(p, registry@, s)),
            texts(r@) == somes(p.stages.take(i as int).map_values(look)),
        decreases pipeline.stages.len() - i,
    {
        let ghost before = r@;
        proof {
            let s = pipeline.stages@[i as int]@;
            assert(p.stages.take(i + 1) == p.stages.take(i as int).push(s));
            lemma_somes_push(p.stages.take(i as int), s, look);
        }
        match find_issue(pipeline, registry, &pipeline.stages[i]) {
            Some(m) => {
                r.push(m);
                assert(texts(r@) == texts(before).push(m@));
            },
            None => {},
        }
        i += 1;
    }
    assert(p.stages.take(i as int) == p.stages);
    r
}

/// The verdict on a pipeline: what to say if nothing is wrong, else the error.
pub fn verdict(pipeline: &PipelineDef, issues: &Vec<String>) -> (r: Result<String, String>)
    ensures
        match r {
            Ok(m) => issues@.len() == 0 && m@ == "pipeline '"@ + pipeline@.name + "' is valid: "@
                + decimal(pipeline@.stages.len()) + " stage(s), plugins and types check out"@,
            Err(m) => issues@.len() > 0 && m@ == "pipeline '"@ + pipeline@.name
                + "' failed validation ("@ + decimal(issues@.len()) + " issue(s))"@,
        },
{
    let mut m = copy_text("pipeline '");
    m.append(pipeline.name.as_str());
    if issues.len() == 0 {
        m.append("' is valid: ");
        m.append(to_decimal(pipeline.stages.len() as u64).as_str());
        m.append(" stage(s), plugins and types check out");
        Ok(m)
    } else {
        m.append("' failed validation (");
        m.append(to_decimal(issues.len() as u64).as_str());
        m.append(" issue(s))");
        Err(m)
    }
}

/// A text filled up with spaces to a width.
pub open spec fn padded(s: Seq<char>, width: nat) -> Seq<char> {
    if s.len() < width {
        s + Seq::new((width - s.len()) as nat, |i: int| ' ')
    } else {
        s
    }
}

fn pad(s: &str, width: usize) -> (r: String)
    ensures
        r@ == padded(s@, width as nat),
{
    let mut r = copy_text(s);
    let mut n: usize = chars_of(s).len();
    let ghost len = s@.len();
    while n < width
        invariant
            len == s@.len(),
            len <= n,
            n <= width || n == len,
            r@ == s@ + Seq::new((n - len) as nat, |i: int| ' '),
        decreases width - n,
    {
        r.push(' ');
        assert(r@ == s@ + Seq::new((n + 1 - len) as nat, |i: int| ' '));
        n += 1;
    }
    assert(r@ == padded(s@, width as nat));
    r
}

/// One line of the list of plugins.
pub open spec fn row(name: Seq<char>, binary: Seq<char>, available: Seq<char>) -> Seq<char> {
    padded(name, 12) + " "@ + padded(binary, 12) + " "@ + padded(available, 10)
}

fn make_row(name: &str, binary: &str, available: &str) -> (r: String)
    ensures
        r@ == row(name@, binary@, available@),
{
    let mut r = pad(name, 12);
    r.append(" ");
    r.append(pad(binary, 12).as_str());
    r.append(" ");
    r.append(pad(available, 10).as_str());
    r
}

/// The head of the list of plugins.
pub fn plugin_header() -> (r: String)
    ensures
        r@ == row("PLUGIN"@, "BINARY"@, "AVAILABLE"@),
{
    make_row("PLUGIN", "BINARY", "AVAILABLE")
}

/// The line about one plugin, given whether its binary was found on PATH.
pub fn plugin_row<P: ReconPlugin>(plugin: &P, found_on_path: bool) -> (r: String)
    ensures
        r@ == row(
            plugin.name_text(),
            plugin.binary_text(),
            if plugin.native() || found_on_path {
                "yes"@
            } else {
                "no"@
            },
        ),
{
    let available = if plugin.is_available(found_on_path) {
        "yes"
    } else {
        "no"
    };
    make_row(plugin.name(), plugin.required_binary(), available)
}

/// Exports the results of a job: there is no job store yet, so this always
/// fails.
pub fn export_job(_job_id: &str, _format: ExportFormat) -> (r: Result<(), String>)
    ensures
        r is Err,
        r->Err_0@
            == "export is not yet implemented — it depends on the job store in explorator-api"@,
{
    Err(
        copy_text(
            "export is not yet implemented — it depends on the job store in explorator-api",
        ),
    )
}

/// Serves the API: there is no job execution behind it yet, so this always
/// fails.
pub fn serve(_addr: &str) -> (r: Result<(), String>)
    ensures
        r is Err,
        r->Err_0@ == "serve is not yet implemented — explorator-api is currently a scaffold"@,
{
    Err(copy_text("serve is not yet implemented — explorator-api is currently a scaffold"))
}

/// Where there is no issue, every stage gets something that its plugin accepts
/// from its input stage.
pub proof fn law_without_issues_types_fit<P: ReconPlugin>(
    p: PipelineView,
    plugins: Seq<P>,
    s: StageView,
)
    requires
        stage_issue(p, plugins, s) is None,
        s.input != SEED_INPUT@,
    ensures
        plugin_at(plugins, s.plugin) matches Some(a) && p.stage_at(s.input) matches Some(u) && (
        plugin_at(plugins, p.stages[u].plugin) matches Some(b) ==> fits_into(
            plugins[b].outputs(),
            plugins[a].inputs(),
        )),
{
}

/// A stage that takes the seed has an issue only if its plugin is not there.
pub proof fn law_seed_stages_have_no_issue<P: ReconPlugin>(
    p: PipelineView,
    plugins: Seq<P>,
    s: StageView,
)
    requires
        s.input == SEED_INPUT@,
    ensures
        stage_issue(p, plugins, s) is None <==> plugin_at(plugins, s.plugin) is Some,
{
}

} // verus!
