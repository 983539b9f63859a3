//! What holds of what the command line tool decides and says.
use vstd::prelude::*;

use crate::cli::{
    all_issues, fits_into, kind_list, padded, plugin_complaint, row, seed_type, stage_issue,
};
use crate::engine::{missing_plugin, unknown_plugin};
use crate::entity::{plain_draft, EntityType, RelationKindView};
use crate::error::ErrorView;
use crate::json::JsonView;
use crate::pipeline::{lemma_first_at, PipelineView, StageView};
use crate::plugin::{plugin_at, plugin_names, ReconPlugin};
use crate::text::{decimal, join, somes};
use crate::text_laws::{
    law_joined_lists_join, law_no_option_counts, law_the_first_option_counts,
};
use crate::tool_laws::{lemma_no_somes, lemma_somes_grow};

verus! {

/// A seed that is an address is taken as one; else a seed with a slash is a
/// range of addresses, and any other a domain.
pub proof fn law_seeds_are_told_apart(target: Seq<char>, k: int)
    ensures
        seed_type(target, true) == EntityType::IpAddress,
        0 <= k < target.len() && target[k] == '/' ==> seed_type(target, false) == EntityType::Cidr,
        (forall|i: int| 0 <= i < target.len() ==> target[i] != '/') ==> seed_type(target, false)
            == EntityType::Domain,
{
    if 0 <= k < target.len() && target[k] == '/' {
        assert(target.contains('/'));
    }
}

/// Whether a plugin is registered under a name.
pub open spec fn is_registered<P: ReconPlugin>(plugins: Seq<P>, name: Seq<char>) -> bool {
    exists|i: int| 0 <= i < plugins.len() && (#[trigger] plugins[i]).name_text() == name
}

/// A plugin is found under its name, at the first place where it stands, and a
/// name that no plugin has is not found.
pub proof fn law_plugins_are_found_by_name<P: ReconPlugin>(
    plugins: Seq<P>,
    name: Seq<char>,
    i: int,
)
    ensures
        plugin_at(plugins, name) is Some <==> is_registered(plugins, name),
        plugin_at(plugins, name) matches Some(k) ==> 0 <= k < plugins.len()
            && plugins[k].name_text() == name,
        0 <= i < plugins.len() && plugins[i].name_text() == name && (forall|j: int|
            0 <= j < i ==> (#[trigger] plugins[j]).name_text() != name) ==> plugin_at(plugins, name)
            == Some(i),
{
    let names = plugin_names(plugins);
    lemma_first_at(names, name);
    assert forall|j: int| 0 <= j < plugins.len() implies names[j] == (
    #[trigger] plugins[j]).name_text() by {}
    if let Some(k) = plugin_at(plugins, name) {
        assert(names[k] == plugins[k].name_text());
    }
    if is_registered(plugins, name) {
        let j = choose|j: int|
            0 <= j < plugins.len() && (#[trigger] plugins[j]).name_text() == name;
        assert(names[j] == name);
        assert(names.contains(name));
    }
}

/// A stage has an issue if and only if its plugin is not registered, or its
/// input is neither the seed nor a stage, or nothing that its input stage
/// produces is accepted.
pub proof fn law_what_counts_as_an_issue<P: ReconPlugin>(
    p: PipelineView,
    plugins: Seq<P>,
    s: StageView,
)
    ensures
        !is_registered(plugins, s.plugin) ==> stage_issue(p, plugins, s) is Some,
        is_registered(plugins, s.plugin) && s.input == "seed"@ ==> stage_issue(p, plugins, s)
            is None,
        is_registered(plugins, s.plugin) && s.input != "seed"@ && (forall|j: int|
            0 <= j < p.stages.len() ==> (#[trigger] p.stages[j]).name != s.input) ==> stage_issue(
            p,
            plugins,
            s,
        ) is Some,
        is_registered(plugins, s.plugin) && s.input != "seed"@ && p.stage_at(s.input) is Some ==> {
            let up = p.stages[p.stage_at(s.input)->0];
            &&& up.name == s.input
            &&& stage_issue(p, plugins, s) is Some <==> is_registered(plugins, up.plugin) && !exists|
                t: EntityType,
            |
                plugins[plugin_at(plugins, up.plugin)->0].outputs().contains(t)
                    && #[trigger] plugins[plugin_at(plugins, s.plugin)->0].inputs().contains(t)
        },
{
    law_plugins_are_found_by_name(plugins, s.plugin, 0);
    lemma_first_at(p.names(), s.input);
    match p.stage_at(s.input) {
        Some(u) => {
            let up = p.stages[u];
            assert(p.names()[u] == up.name);
            law_plugins_are_found_by_name(plugins, up.plugin, 0);
            if is_registered(plugins, up.plugin) && is_registered(plugins, s.plugin) {
                let made = plugins[plugin_at(plugins, up.plugin)->0].outputs();
                let taken = plugins[plugin_at(plugins, s.plugin)->0].inputs();
                if fits_into(made, taken) {
                    let k = choose|k: int|
                        0 <= k < made.len() && taken.contains(#[trigger] made[k]);
                    assert(made.contains(made[k]) && taken.contains(made[k]));
                }
                if exists|t: EntityType| made.contains(t) && #[trigger] taken.contains(t) {
                    let t = choose|t: EntityType| made.contains(t) && #[trigger] taken.contains(t);
                    let k = made.index_of(t);
                    assert(taken.contains(made[k]));
                }
            }
        },
        None => {},
    }
}

/// Issues are told stage by stage, in order; there is none if and only if no
/// stage has one.
pub proof fn law_issues_are_told_stage_by_stage<P: ReconPlugin>(p: PipelineView, plugins: Seq<P>)
    ensures
        all_issues(p, plugins).len() == 0 <==> forall|i: int|
            0 <= i < p.stages.len() ==> stage_issue(p, plugins, #[trigger] p.stages[i]) is None,
        all_issues(p, plugins).len() <= p.stages.len(),
        (forall|i: int|
            0 <= i < p.stages.len() ==> stage_issue(p, plugins, #[trigger] p.stages[i]) is Some)
            ==> all_issues(p, plugins).len() == p.stages.len() && forall|i: int|
            0 <= i < p.stages.len() ==> Some(#[trigger] all_issues(p, plugins)[i]) == stage_issue(
                p,
                plugins,
                p.stages[i],
            ),
{
    let tell = |s: StageView| stage_issue(p, plugins, s);
    let told = p.stages.map_values(tell);
    lemma_no_somes(told);
    lemma_all_somes(told);
    if all_issues(p, plugins).len() == 0 {
        assert forall|i: int| 0 <= i < p.stages.len() implies stage_issue(
            p,
            plugins,
            #[trigger] p.stages[i],
        ) is None by {
            assert(told[i] is None);
        }
    }
    if forall|i: int|
        0 <= i < p.stages.len() ==> stage_issue(p, plugins, #[trigger] p.stages[i]) is None {
        assert forall|i: int| 0 <= i < told.len() implies (#[trigger] told[i]) is None by {
            assert(stage_issue(p, plugins, p.stages[i]) is None);
        }
    }
    if forall|i: int|
        0 <= i < p.stages.len() ==> stage_issue(p, plugins, #[trigger] p.stages[i]) is Some {
        assert forall|i: int| 0 <= i < told.len() implies (#[trigger] told[i]) is Some by {
            assert(stage_issue(p, plugins, p.stages[i]) is Some);
        }
        assert forall|i: int| 0 <= i < p.stages.len() implies Some(
            #[trigger] all_issues(p, plugins)[i],
        ) == stage_issue(p, plugins, p.stages[i]) by {
            assert(told[i] == Some(all_issues(p, plugins)[i]));
        }
    }
}

proof fn lemma_all_somes<T>(s: Seq<Option<T>>)
    ensures
        somes(s).len() <= s.len(),
        (forall|i: int| 0 <= i < s.len() ==> (#[trigger] s[i]) is Some) ==> somes(s).len()
            == s.len() && forall|i: int|
            0 <= i < s.len() ==> #[trigger] s[i] == Some(somes(s)[i]),
    decreases s.len(),
{
    if s.len() > 0 {
        let front = s.drop_last();
        lemma_all_somes(front);
        lemma_somes_grow(front, s.last());
        assert(front.push(s.last()) == s);
        if forall|i: int| 0 <= i < s.len() ==> (#[trigger] s[i]) is Some {
            assert forall|i: int| 0 <= i < front.len() implies (#[trigger] front[i]) is Some by {
                assert(s[i] is Some);
            }
            assert(s[s.len() - 1] is Some);
            assert forall|i: int| 0 <= i < s.len() implies #[trigger] s[i] == Some(
                somes(s)[i],
            ) by {
                if i < front.len() {
                    assert(front[i] == s[i]);
                }
            }
        }
    }
}

/// What is said of an issue names the stage, and what is wrong with it.
pub proof fn law_an_issue_is_named<P: ReconPlugin>(p: PipelineView, plugins: Seq<P>, s: StageView)
    ensures
        !is_registered(plugins, s.plugin) ==> stage_issue(p, plugins, s) == Some(
            "stage '"@ + s.name + "': "@ + "unknown plugin '"@ + s.plugin + "'"@,
        ),
        !is_registered(plugins, s.plugin) ==> plugin_complaint(s, plugins) == Some(
            "stage '"@ + s.name + "' references unknown plugin '"@ + s.plugin + "'"@,
        ),
        is_registered(plugins, s.plugin) ==> plugin_complaint(s, plugins) is None,
        is_registered(plugins, s.plugin) && s.input != "seed"@ && p.stage_at(s.input) is None
            ==> stage_issue(p, plugins, s) == Some(
            "stage '"@ + s.name + "': "@ + "input '"@ + s.input + "' is not a known stage"@,
        ),
{
    law_plugins_are_found_by_name(plugins, s.plugin, 0);
}

/// A list of kinds begins with a square bracket, ends with one, and has commas
/// between its kinds.
pub proof fn law_kinds_are_listed_in_brackets(
    a: Seq<EntityType>,
    b: Seq<EntityType>,
    t: EntityType,
)
    ensures
        kind_list(seq![t]) == seq!['['] + t.variant_name() + seq![']'],
        kind_list(Seq::empty()) == seq!['[', ']'],
        a.len() > 0 && b.len() > 0 ==> kind_list(a + b) == kind_list(a).drop_last() + seq![',', ' ']
            + kind_list(b).skip(1),
{
    reveal_strlit("[");
    reveal_strlit("]");
    reveal_strlit(", ");
    assert("["@ =~= seq!['[']);
    assert("]"@ =~= seq![']']);
    assert(", "@ =~= seq![',', ' ']);
    let name = |t: EntityType| t.variant_name();
    assert(seq![t].map_values(name) =~= seq![t.variant_name()]);
    law_joined_lists_join(seq![t.variant_name()], Seq::empty(), ", "@);
    assert(Seq::<EntityType>::empty().map_values(name) =~= Seq::<Seq<char>>::empty());
    assert(kind_list(Seq::empty()) =~= seq!['[', ']']);
    if a.len() > 0 && b.len() > 0 {
        let x = a.map_values(name);
        let y = b.map_values(name);
        assert((a + b).map_values(name) =~= x + y);
        law_joined_lists_join(x, y, ", "@);
        assert(kind_list(a).drop_last() =~= seq!['['] + join(x, ", "@));
        assert(kind_list(b).skip(1) =~= join(y, ", "@) + seq![']']);
        assert(kind_list(a + b) =~= kind_list(a).drop_last() + seq![',', ' '] + kind_list(b).skip(
            1,
        ));
    }
}

/// A text is filled up with spaces behind it, and never cut.
pub proof fn law_padding_adds_spaces_behind(s: Seq<char>, width: nat, i: int)
    ensures
        padded(s, width).len() == if s.len() < width {
            width
        } else {
            s.len()
        },
        s.is_prefix_of(padded(s, width)),
        s.len() <= i < padded(s, width).len() ==> padded(s, width)[i] == ' ',
{
    assert(padded(s, width).take(s.len() as int) =~= s);
}

/// A line of the list of plugins has three columns: what is short enough for
/// its column begins where the column begins.
pub proof fn law_rows_have_columns(name: Seq<char>, binary: Seq<char>, available: Seq<char>)
    requires
        name.len() <= 12,
        binary.len() <= 12,
    ensures
        row(name, binary, available).len() >= 36,
        name.is_prefix_of(row(name, binary, available)),
        binary.is_prefix_of(row(name, binary, available).skip(13)),
        available.is_prefix_of(row(name, binary, available).skip(26)),
{
    reveal_strlit(" ");
    let r = row(name, binary, available);
    assert(r.take(name.len() as int) =~= name);
    assert(r.skip(13).take(binary.len() as int) =~= binary);
    assert(r.skip(26).take(available.len() as int) =~= available);
}

/// The message of an error says what kind of error it is, and ends in its
/// detail.
pub proof fn law_messages_tell_kind_and_detail(a: Seq<char>, b: Seq<char>, n: u64)
    ensures
        ErrorView::PipelineParse(a).message() == "failed to parse pipeline: "@ + a,
        ErrorView::InvalidPipeline(a).message() == "invalid pipeline definition: "@ + a,
        ErrorView::UnknownPlugin(a).message() == "unknown plugin: "@ + a,
        ErrorView::Io(a).message() == "io error: "@ + a,
        (ErrorView::PluginExecution { plugin: a, message: b }).message() == "plugin '"@ + a
            + "' failed: "@ + b,
        (ErrorView::MissingBinary { plugin: a, binary: b }).message() == "plugin '"@ + a
            + "' requires binary '"@ + b + "' which was not found on PATH"@,
        (ErrorView::Timeout { stage: a, secs: n }).message() == "stage '"@ + a
            + "' timed out after "@ + decimal(n as nat) + "s"@,
{
}

/// The stage whose input does not fit is named with what its plugin accepts,
/// and with the stage before it and what the plugin of that produces.
pub proof fn law_an_input_that_does_not_fit_is_named<P: ReconPlugin>(
    p: PipelineView,
    plugins: Seq<P>,
    s: StageView,
)
    requires
        is_registered(plugins, s.plugin),
        s.input != "seed"@,
        p.stage_at(s.input) is Some,
        is_registered(plugins, p.stages[p.stage_at(s.input)->0].plugin),
        stage_issue(p, plugins, s) is Some,
    ensures
        ({
            let up = p.stages[p.stage_at(s.input)->0];
            let taking = plugins[plugin_at(plugins, s.plugin)->0];
            let making = plugins[plugin_at(plugins, up.plugin)->0];
            stage_issue(p, plugins, s) == Some(
                "stage '"@ + s.name + "': "@ + "plugin '"@ + s.plugin + "' accepts "@ + kind_list(
                    taking.inputs(),
                ) + " but upstream stage '"@ + s.input + "' (plugin '"@ + up.plugin
                    + "') produces "@ + kind_list(making.outputs()),
            )
        }),
{
    let u = p.stage_at(s.input)->0;
    lemma_first_at(p.names(), s.input);
    assert(p.names()[u] == p.stages[u].name);
    law_plugins_are_found_by_name(plugins, s.plugin, 0);
    law_plugins_are_found_by_name(plugins, p.stages[u].plugin, 0);
}

/// A pipeline is refused for the plugin of the first stage whose plugin is not
/// registered, and only then.
pub proof fn law_the_first_unknown_plugin_is_told<P: ReconPlugin>(
    p: PipelineView,
    plugins: Seq<P>,
    i: int,
)
    ensures
        0 <= i < p.stages.len() && !is_registered(plugins, p.stages[i].plugin) && (forall|j: int|
            0 <= j < i ==> is_registered(plugins, (#[trigger] p.stages[j]).plugin))
            ==> unknown_plugin(p, plugins) == Some(p.stages[i].plugin),
        (forall|j: int|
            0 <= j < p.stages.len() ==> is_registered(plugins, (#[trigger] p.stages[j]).plugin))
            ==> unknown_plugin(p, plugins) is None,
{
    let tell = |s: StageView| missing_plugin(s, plugins);
    let told = p.stages.map_values(tell);
    assert forall|j: int| 0 <= j < p.stages.len() implies ((#[trigger] told[j]) is None
        <==> is_registered(plugins, p.stages[j].plugin)) by {
        law_plugins_are_found_by_name(plugins, p.stages[j].plugin, 0);
    }
    if 0 <= i < p.stages.len() && !is_registered(plugins, p.stages[i].plugin) && (forall|j: int|
        0 <= j < i ==> is_registered(plugins, (#[trigger] p.stages[j]).plugin)) {
        assert forall|j: int| 0 <= j < i implies (#[trigger] told[j]) is None by {
            assert(is_registered(plugins, p.stages[j].plugin));
        }
        law_the_first_option_counts(told, i);
    }
    if forall|j: int|
        0 <= j < p.stages.len() ==> is_registered(plugins, (#[trigger] p.stages[j]).plugin) {
        assert forall|j: int| 0 <= j < told.len() implies (#[trigger] told[j]) is None by {
            assert(is_registered(plugins, p.stages[j].plugin));
        }
        law_no_option_counts(told);
    }
}

/// A new artifact is kept as it was named, fully trusted, without detail and
/// without links.
pub proof fn law_a_new_artifact_is_plain(
    entity_type: EntityType,
    value: Seq<char>,
    source: Seq<char>,
)
    ensures
        plain_draft(entity_type, value, source).entity_type == entity_type,
        plain_draft(entity_type, value, source).value == value,
        plain_draft(entity_type, value, source).source == source,
        plain_draft(entity_type, value, source).confidence.bits == 0x3F80_0000,
        plain_draft(entity_type, value, source).metadata == JsonView::Null,
        plain_draft(entity_type, value, source).relations.len() == 0,
{
}

/// Kinds are written in small letters, with underscores between words.
pub proof fn law_kinds_are_written_in_small_letters()
    ensures
        EntityType::Domain.name() == "domain"@,
        EntityType::Subdomain.name() == "subdomain"@,
        EntityType::IpAddress.name() == "ip_address"@,
        EntityType::Port.name() == "port"@,
        EntityType::Service.name() == "service"@,
        EntityType::Technology.name() == "technology"@,
        EntityType::Url.name() == "url"@,
        EntityType::Endpoint.name() == "endpoint"@,
        EntityType::Certificate.name() == "certificate"@,
        EntityType::EmailAddress.name() == "email_address"@,
        EntityType::Asn.name() == "asn"@,
        EntityType::Cidr.name() == "cidr"@,
        EntityType::Vulnerability.name() == "vulnerability"@,
        EntityType::Screenshot.name() == "screenshot"@,
        RelationKindView::ResolvesTo.name() == "resolves_to"@,
        RelationKindView::HasPort.name() == "has_port"@,
        RelationKindView::RunsService.name() == "runs_service"@,
        RelationKindView::HasVulnerability.name() == "has_vulnerability"@,
        RelationKindView::HasTechnology.name() == "has_technology"@,
        RelationKindView::HasCertificate.name() == "has_certificate"@,
        RelationKindView::DiscoveredFrom.name() == "discovered_from"@,
        RelationKindView::LinksTo.name() == "links_to"@,
        RelationKindView::BelongsToAsn.name() == "belongs_to_asn"@,
        RelationKindView::BelongsToCidr.name() == "belongs_to_cidr"@,
        forall|s: Seq<char>| #[trigger] RelationKindView::Custom(s).name() == s,
{
}

/// Issues call kinds by their names in the code.
pub proof fn law_kinds_have_names_in_the_code()
    ensures
        EntityType::Domain.variant_name() == "Domain"@,
        EntityType::Subdomain.variant_name() == "Subdomain"@,
        EntityType::IpAddress.variant_name() == "IpAddress"@,
        EntityType::Port.variant_name() == "Port"@,
        EntityType::Service.variant_name() == "Service"@,
        EntityType::Technology.variant_name() == "Technology"@,
        EntityType::Url.variant_name() == "Url"@,
        EntityType::Endpoint.variant_name() == "Endpoint"@,
        EntityType::Certificate.variant_name() == "Certificate"@,
        EntityType::EmailAddress.variant_name() == "EmailAddress"@,
        EntityType::Asn.variant_name() == "Asn"@,
        EntityType::Cidr.variant_name() == "Cidr"@,
        EntityType::Vulnerability.variant_name() == "Vulnerability"@,
        EntityType::Screenshot.variant_name() == "Screenshot"@,
{
}

/// What holds where the settings do not say: ten seconds for a page, 800
/// milliseconds for a port, and two hundred ports at a time.
pub proof fn law_what_holds_without_settings()
    ensures
        crate::httpx::DEFAULT_TIMEOUT_SECS == 10,
        crate::portscan::DEFAULT_TIMEOUT_MS == 800,
        crate::portscan::DEFAULT_CONCURRENCY == 200,
{
}

} // verus!
