//! What holds of the external tools: how they are called, and what their
//! findings say.
use vstd::prelude::*;

use crate::entity::{Confidence, Draft, EntityType, EntityView, RelationKindView, RelationView};
use crate::json::{opt_text, JsonView};
use crate::katana;
use crate::katana::KatanaLine;
use crate::nuclei;
use crate::nuclei::NucleiLine;
use crate::subfinder;
use crate::subfinder::SubfinderLine;
use crate::text::{join, texts};
use crate::text_laws::{law_written_numbers_read_back, number_value};
use crate::tool::{chosen, strings_among};
use crate::tool_laws::{law_chosen_entities_are_of_the_kinds, lemma_somes_grow};

verus! {

/// Whether an option stands among arguments with the given value behind it.
pub open spec fn has_option(args: Seq<Seq<char>>, option: Seq<char>, value: Seq<char>) -> bool {
    exists|k: int|
        0 <= k && k + 1 < args.len() && #[trigger] args[k] == option && args[k + 1] == value
}

/// `subfinder` is called once for each domain, in order, with that domain; it is
/// asked for JSON and to be quiet, and to ask all sources if and only if the
/// setting `all` is true.
pub proof fn law_subfinder_is_called_for_each_domain(
    input: Seq<EntityView>,
    config: JsonView,
    k: int,
)
    ensures
        subfinder::calls(input, config).len() == chosen(input, seq![EntityType::Domain]).len(),
        0 <= k < subfinder::calls(input, config).len() ==> {
            let call = subfinder::calls(input, config)[k];
            &&& call.target == chosen(input, seq![EntityType::Domain])[k]
            &&& 0 <= call.target < input.len()
            &&& input[call.target].entity_type == EntityType::Domain
            &&& has_option(call.args, "-d"@, input[call.target].value)
            &&& call.args.contains("-json"@)
            &&& call.args.contains("-silent"@)
            &&& call.args.len() == if config.member("all"@) == Some(JsonView::Bool(true)) {
                5int
            } else {
                4
            }
            &&& config.member("all"@) == Some(JsonView::Bool(true)) ==> call.args[4] == "-all"@
        },
{
    let kinds = seq![EntityType::Domain];
    if 0 <= k < subfinder::calls(input, config).len() {
        law_chosen_entities_are_of_the_kinds(input, kinds, k);
        let call = subfinder::calls(input, config)[k];
        assert(call.args[0] == "-d"@ && call.args[0int + 1] == input[call.target].value);
        assert(call.args[2] == "-json"@ && call.args[3] == "-silent"@);
    }
}

/// Each line of `subfinder` that could be read adds the subdomain that it
/// names, at the end: with the source that it names, or else the tool itself,
/// and linked to the domain that was asked about. Other lines add nothing.
pub proof fn law_subfinder_lines_are_told_one_by_one(
    domain: EntityView,
    found: Seq<Option<SubfinderLine>>,
    line: SubfinderLine,
)
    ensures
        subfinder::findings(domain, Seq::empty()) == Seq::<Draft>::empty(),
        subfinder::findings(domain, found.push(None)) == subfinder::findings(domain, found),
        ({
            let before = subfinder::findings(domain, found);
            let all = subfinder::findings(domain, found.push(Some(line)));
            let d = all.last();
            &&& all == before.push(d)
            &&& d.entity_type == EntityType::Subdomain
            &&& d.value == line.host@
            &&& d.source == "subfinder"@
            &&& d.confidence == (Confidence { bits: 0x3F80_0000 })
            &&& d.metadata.member("discovery_source"@) == Some(
                JsonView::Text(match line.source {
                    Some(s) => s@,
                    None => "subfinder"@,
                }),
            )
            &&& d.relations.len() == 1
            &&& d.relations[0] == (RelationView {
                target: domain.id,
                kind: RelationKindView::DiscoveredFrom,
            })
        }),
{
    let tell = |l: Option<SubfinderLine>|
        match l {
            Some(line) => Some(subfinder::finding(domain, line)),
            None => None,
        };
    let none = Seq::<Option<SubfinderLine>>::empty();
    assert(none.map_values(tell) =~= Seq::<Option<Draft>>::empty());
    assert(found.push(None).map_values(tell) =~= found.map_values(tell).push(None));
    assert(found.push(Some(line)).map_values(tell) =~= found.map_values(tell).push(
        tell(Some(line)),
    ));
    lemma_somes_grow(found.map_values(tell), None);
    lemma_somes_grow(found.map_values(tell), tell(Some(line)));
}

/// `katana` is called once for each URL, in order, with that URL and the depth
/// of the settings, or three; it looks into scripts if and only if the setting
/// `js_crawl` is true.
pub proof fn law_katana_is_called_for_each_url(input: Seq<EntityView>, config: JsonView, k: int)
    ensures
        katana::calls(input, config).len() == chosen(input, seq![EntityType::Url]).len(),
        0 <= k < katana::calls(input, config).len() ==> {
            let call = katana::calls(input, config)[k];
            let depth = match config.member("depth"@) {
                Some(JsonView::PosInt(n)) => n,
                _ => 3u64,
            };
            &&& call.target == chosen(input, seq![EntityType::Url])[k]
            &&& 0 <= call.target < input.len()
            &&& input[call.target].entity_type == EntityType::Url
            &&& call.args[0] == "-u"@
            &&& call.args[1] == input[call.target].value
            &&& call.args[2] == "-d"@
            &&& number_value(call.args[3], 10) == depth
            &&& call.args.contains("-jsonl"@)
            &&& call.args.contains("-silent"@)
            &&& call.args.len() == if config.member("js_crawl"@) == Some(JsonView::Bool(true)) {
                7int
            } else {
                6
            }
            &&& config.member("js_crawl"@) == Some(JsonView::Bool(true)) ==> call.args[6] == "-jc"@
        },
{
    let kinds = seq![EntityType::Url];
    if 0 <= k < katana::calls(input, config).len() {
        law_chosen_entities_are_of_the_kinds(input, kinds, k);
        law_written_numbers_read_back(katana::depth_asked(config) as nat, 10);
        let call = katana::calls(input, config)[k];
        assert(call.args[4] == "-jsonl"@ && call.args[5] == "-silent"@);
    }
}

/// Each line of `katana` that could be read and names an endpoint, itself or in
/// its request, adds that endpoint at the end, with what the line says under
/// the names of its parts, and linked to the URL that was crawled. Other lines
/// add nothing.
pub proof fn law_katana_lines_are_told_one_by_one(
    seed: EntityView,
    found: Seq<Option<KatanaLine>>,
    line: KatanaLine,
)
    ensures
        katana::findings(seed, Seq::empty()) == Seq::<Draft>::empty(),
        katana::findings(seed, found.push(None)) == katana::findings(seed, found),
        ({
            let before = katana::findings(seed, found);
            let all = katana::findings(seed, found.push(Some(line)));
            let endpoint = match line.endpoint {
                Some(s) => Some(s@),
                None => match line.request {
                    Some(r) => opt_text(r.endpoint),
                    None => None,
                },
            };
            let d = all.last();
            &&& endpoint is None ==> all == before
            &&& endpoint is Some ==> {
                &&& all == before.push(d)
                &&& d.entity_type == EntityType::Endpoint
                &&& d.value == endpoint->0
                &&& d.source == "katana"@
                &&& d.confidence == (Confidence { bits: 0x3F80_0000 })
                &&& d.metadata == katana::detail(line)
                &&& d.relations.len() == 1
                &&& d.relations[0] == (RelationView {
                    target: seed.id,
                    kind: RelationKindView::DiscoveredFrom,
                })
            }
        }),
{
    let tell = |l: Option<KatanaLine>|
        match l {
            Some(line) => katana::finding(seed, line),
            None => None,
        };
    let none = Seq::<Option<KatanaLine>>::empty();
    assert(none.map_values(tell) =~= Seq::<Option<Draft>>::empty());
    assert(found.push(None).map_values(tell) =~= found.map_values(tell).push(None));
    assert(found.push(Some(line)).map_values(tell) =~= found.map_values(tell).push(
        tell(Some(line)),
    ));
    lemma_somes_grow(found.map_values(tell), None);
    lemma_somes_grow(found.map_values(tell), tell(Some(line)));
}

/// A text as JSON shows it, or nothing.
pub open spec fn shown(s: Option<Seq<char>>) -> JsonView {
    match s {
        Some(t) => JsonView::Text(t),
        None => JsonView::Null,
    }
}

/// Whether a JSON value is the list of the given texts.
pub open spec fn lists(v: JsonView, ts: Seq<Seq<char>>) -> bool {
    v is Array && v->Array_0.len() == ts.len() && forall|i: int|
        0 <= i < ts.len() ==> #[trigger] v->Array_0[i] == JsonView::Text(ts[i])
}

/// What a line of `katana` says stands under the names of its parts.
pub proof fn law_katana_detail_is_shown_part_by_part(line: KatanaLine)
    ensures
        ({
            let d = katana::detail(line);
            &&& d.member("source"@) == Some(shown(opt_text(line.source)))
            &&& d.member("tag"@) == Some(shown(opt_text(line.tag)))
            &&& d.member("attribute"@) == Some(shown(opt_text(line.attribute)))
            &&& d.member("method"@) == Some(shown(match line.request {
                Some(r) => opt_text(r.method),
                None => None,
            }))
            &&& d.member("status_code"@) == Some(match line.response {
                Some(r) => match r.status_code {
                    Some(n) => JsonView::PosInt(n as u64),
                    None => JsonView::Null,
                },
                None => JsonView::Null,
            })
            &&& d.member("technologies"@) is Some
            &&& lists(d.member("technologies"@)->0, match line.response {
                Some(r) => texts(r.technologies@),
                None => Seq::empty(),
            })
        }),
{
    reveal_strlit("source");
    reveal_strlit("tag");
    reveal_strlit("attribute");
    reveal_strlit("method");
    reveal_strlit("status_code");
    reveal_strlit("technologies");
    assert("source"@.len() == 6 && "tag"@.len() == 3 && "attribute"@.len() == 9 && "method"@.len()
        == 6 && "status_code"@.len() == 11 && "technologies"@.len() == 12);
    assert("source"@[0] == 's' && "method"@[0] == 'm');
}

/// `nuclei` is called once for each URL, in order, with that URL; severities and
/// tags of the settings are handed on with commas between them, each behind
/// its own option.
pub proof fn law_nuclei_is_called_for_each_url(input: Seq<EntityView>, config: JsonView, k: int)
    ensures
        nuclei::calls(input, config).len() == chosen(input, seq![EntityType::Url]).len(),
        0 <= k < nuclei::calls(input, config).len() ==> {
            let call = nuclei::calls(input, config)[k];
            let severity = config.member("severity"@);
            let tags = config.member("tags"@);
            let rest = call.args.skip(4);
            &&& call.target == chosen(input, seq![EntityType::Url])[k]
            &&& 0 <= call.target < input.len()
            &&& input[call.target].entity_type == EntityType::Url
            &&& call.args.len() >= 4
            &&& call.args[0] == "-u"@
            &&& call.args[1] == input[call.target].value
            &&& call.args.contains("-jsonl"@)
            &&& call.args.contains("-silent"@)
            &&& match (severity, tags) {
                (Some(JsonView::Array(a)), Some(JsonView::Array(b))) => rest == seq![
                    "-severity"@,
                    join(strings_among(a), seq![',']),
                    "-tags"@,
                    join(strings_among(b), seq![',']),
                ],
                (Some(JsonView::Array(a)), _) => rest == seq![
                    "-severity"@,
                    join(strings_among(a), seq![',']),
                ],
                (_, Some(JsonView::Array(b))) => rest == seq![
                    "-tags"@,
                    join(strings_among(b), seq![',']),
                ],
                _ => rest == Seq::<Seq<char>>::empty(),
            }
        },
{
    reveal_strlit(",");
    assert(","@ =~= seq![',']);
    let kinds = seq![EntityType::Url];
    if 0 <= k < nuclei::calls(input, config).len() {
        law_chosen_entities_are_of_the_kinds(input, kinds, k);
        let call = nuclei::calls(input, config)[k];
        assert(call.args[2] == "-jsonl"@ && call.args[3] == "-silent"@);
        let s = nuclei::flagged("-severity"@, nuclei::listed(config, "severity"@));
        let t = nuclei::flagged("-tags"@, nuclei::listed(config, "tags"@));
        assert(call.args.skip(4) =~= s + t);
        assert(s + t =~= match (config.member("severity"@), config.member("tags"@)) {
            (Some(JsonView::Array(a)), Some(JsonView::Array(b))) => seq![
                "-severity"@,
                join(strings_among(a), seq![',']),
                "-tags"@,
                join(strings_among(b), seq![',']),
            ],
            (Some(JsonView::Array(a)), _) => seq![
                "-severity"@,
                join(strings_among(a), seq![',']),
            ],
            (_, Some(JsonView::Array(b))) => seq!["-tags"@, join(strings_among(b), seq![','])],
            _ => Seq::<Seq<char>>::empty(),
        });
    }
}

/// Each line of `nuclei` that could be read and names a template adds a
/// vulnerability at the end, called by the template and the place it was found
/// at, and linked to the URL that was scanned. Other lines add nothing.
pub proof fn law_nuclei_lines_are_told_one_by_one(
    seed: EntityView,
    found: Seq<Option<NucleiLine>>,
    line: NucleiLine,
)
    ensures
        nuclei::findings(seed, Seq::empty()) == Seq::<Draft>::empty(),
        nuclei::findings(seed, found.push(None)) == nuclei::findings(seed, found),
        ({
            let before = nuclei::findings(seed, found);
            let all = nuclei::findings(seed, found.push(Some(line)));
            let d = all.last();
            &&& line.template_id is None ==> all == before
            &&& line.template_id is Some ==> {
                &&& all == before.push(d)
                &&& d.entity_type == EntityType::Vulnerability
                &&& d.value == line.template_id->0@ + seq!['@'] + match line.matched_at {
                    Some(s) => s@,
                    None => seed.value,
                }
                &&& d.source == "nuclei"@
                &&& d.confidence == (Confidence { bits: 0x3F80_0000 })
                &&& d.metadata == nuclei::detail(seed, line.template_id->0@, line)
                &&& d.relations.len() == 1
                &&& d.relations[0] == (RelationView {
                    target: seed.id,
                    kind: RelationKindView::HasVulnerability,
                })
            }
        }),
{
    reveal_strlit("@");
    assert("@"@ =~= seq!['@']);
    let tell = |l: Option<NucleiLine>|
        match l {
            Some(line) => nuclei::finding(seed, line),
            None => None,
        };
    let none = Seq::<Option<NucleiLine>>::empty();
    assert(none.map_values(tell) =~= Seq::<Option<Draft>>::empty());
    assert(found.push(None).map_values(tell) =~= found.map_values(tell).push(None));
    assert(found.push(Some(line)).map_values(tell) =~= found.map_values(tell).push(
        tell(Some(line)),
    ));
    lemma_somes_grow(found.map_values(tell), None);
    lemma_somes_grow(found.map_values(tell), tell(Some(line)));
}

/// What a line of `nuclei` says stands under the names of its parts.
pub proof fn law_nuclei_detail_is_shown_part_by_part(
    seed: EntityView,
    template_id: Seq<char>,
    line: NucleiLine,
)
    ensures
        ({
            let d = nuclei::detail(seed, template_id, line);
            &&& d.member("template_id"@) == Some(JsonView::Text(template_id))
            &&& d.member("name"@) == Some(shown(match line.info {
                Some(i) => opt_text(i.name),
                None => None,
            }))
            &&& d.member("severity"@) == Some(shown(match line.info {
                Some(i) => opt_text(i.severity),
                None => None,
            }))
            &&& d.member("description"@) == Some(shown(match line.info {
                Some(i) => opt_text(i.description),
                None => None,
            }))
            &&& d.member("host"@) == Some(shown(opt_text(line.host)))
            &&& d.member("ip"@) == Some(shown(opt_text(line.ip)))
            &&& d.member("matched_at"@) == Some(JsonView::Text(match line.matched_at {
                Some(s) => s@,
                None => seed.value,
            }))
            &&& d.member("tags"@) is Some
            &&& lists(d.member("tags"@)->0, match line.info {
                Some(i) => texts(i.tags@),
                None => Seq::empty(),
            })
            &&& d.member("extracted_results"@) is Some
            &&& lists(d.member("extracted_results"@)->0, texts(line.extracted_results@))
        }),
{
    reveal_strlit("template_id");
    reveal_strlit("name");
    reveal_strlit("severity");
    reveal_strlit("tags");
    reveal_strlit("description");
    reveal_strlit("host");
    reveal_strlit("matched_at");
    reveal_strlit("ip");
    reveal_strlit("extracted_results");
    assert("template_id"@.len() == 11 && "name"@.len() == 4 && "severity"@.len() == 8
        && "tags"@.len() == 4 && "description"@.len() == 11 && "host"@.len() == 4
        && "matched_at"@.len() == 10 && "ip"@.len() == 2 && "extracted_results"@.len() == 17);
    assert("template_id"@[0] == 't' && "description"@[0] == 'd');
    assert("name"@[0] == 'n' && "tags"@[0] == 't' && "host"@[0] == 'h');
}

} // verus!
