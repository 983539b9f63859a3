//! What holds of HTTP probing, whatever servers answer.
use vstd::prelude::*;

use crate::entity::{Confidence, EntityType, EntityView, RelationKindView, RelationView};
use crate::httpx::{
    host_probes, page_draft, probes_for, schemes_asked, title, ProbeView, Reply,
};
use crate::json::JsonView;
use crate::text::{find_from, is_white, lower, trim};
use crate::text_laws::{
    law_text_in_white_space_is_left, law_the_first_place_is_found,
    law_trimming_takes_white_space_off_both_ends,
};
use crate::tool::strings_among;

verus! {

/// The title of a page stands between the first title tag, whatever attributes
/// it has, and the next end of a title, without the white space around it.
/// Tags are told in whatever case they are written.
pub proof fn law_the_title_stands_between_its_tags(
    before: Seq<char>,
    tag: Seq<char>,
    attributes: Seq<char>,
    gap: Seq<char>,
    text: Seq<char>,
    space: Seq<char>,
    end: Seq<char>,
    after: Seq<char>,
)
    requires
        lower(tag) == "<title"@,
        lower(end) == "</title>"@,
        !attributes.contains('>'),
        forall|i: int| 0 <= i < gap.len() ==> is_white(#[trigger] gap[i]),
        forall|i: int| 0 <= i < space.len() ==> is_white(#[trigger] space[i]),
        text.len() > 0,
        !is_white(text[0]),
        !is_white(text.last()),
        ({
            let body = before + tag + attributes + seq!['>'] + gap + text + space + end + after;
            let inside = before.len() + tag.len() + attributes.len() + 1;
            let close = inside + gap.len() + text.len() + space.len();
            &&& forall|j: int|
                0 <= j < before.len() ==> (#[trigger] lower(body).subrange(j, j + 6)) != "<title"@
            &&& forall|j: int|
                inside <= j < close ==> (#[trigger] lower(body).subrange(j, j + 8))
                    != "</title>"@
        }),
    ensures
        title(before + tag + attributes + seq!['>'] + gap + text + space + end + after) == Some(
            text,
        ),
{
    reveal_strlit("<title");
    reveal_strlit("</title>");
    let body = before + tag + attributes + seq!['>'] + gap + text + space + end + after;
    let low = lower(body);
    let opening = "<title"@;
    let closing = "</title>"@;
    let a = before.len() as int;
    let b = a + 6 + attributes.len();
    let close = b + 1 + gap.len() + text.len() + space.len();
    assert(tag.len() == 6) by {
        assert(lower(tag).len() == tag.len());
    }
    assert(end.len() == 8) by {
        assert(lower(end).len() == end.len());
    }
    // The tag is found where it stands.
    law_the_first_place_is_found(low, opening, 0);
    assert(low.subrange(a, a + 6) =~= opening) by {
        assert forall|i: int| 0 <= i < 6 implies low[a + i] == #[trigger] opening[i] by {
            assert(body[a + i] == tag[i]);
            assert(lower(tag)[i] == opening[i]);
        }
    }
    assert(find_from(low, opening, 0) == Some(a));
    // So is the end of the tag.
    let mark = seq!['>'];
    law_the_first_place_is_found(body, mark, a);
    assert(body.subrange(b, b + 1) =~= mark);
    assert forall|j: int| a <= j < b implies (#[trigger] body.subrange(j, j + 1)) != mark by {
        assert(body.subrange(j, j + 1)[0] == body[j]);
        if j < a + 6 {
            assert(body[j] == tag[j - a]);
            assert(lower(tag)[j - a] == opening[j - a]);
            assert(opening[j - a] != '>');
        } else {
            assert(body[j] == attributes[j - a - 6]);
            assert(attributes.contains(attributes[j - a - 6]));
        }
    }
    assert(find_from(body, mark, a) == Some(b));
    // And so is the end of the title.
    law_the_first_place_is_found(low, closing, b + 1);
    assert(low.subrange(close, close + 8) =~= closing) by {
        assert forall|i: int| 0 <= i < 8 implies low[close + i] == #[trigger] closing[i] by {
            assert(body[close + i] == end[i]);
            assert(lower(end)[i] == closing[i]);
        }
    }
    assert(find_from(low, closing, b + 1) == Some(close));
    assert(body.subrange(b + 1, close) =~= gap + text + space);
    law_text_in_white_space_is_left(gap, text, space);
}

/// A page without a title tag has no title.
pub proof fn law_without_a_tag_there_is_no_title(body: Seq<char>)
    requires
        forall|j: int|
            0 <= j && j + 6 <= body.len() ==> (#[trigger] lower(body).subrange(j, j + 6))
                != "<title"@,
    ensures
        title(body) is None,
{
    reveal_strlit("<title");
    law_the_first_place_is_found(lower(body), "<title"@, 0);
}

/// An answer is shown as the URL that it came from, with the status, title,
/// headers and length that it had, each under its own name, and linked to the
/// host that was asked.
pub proof fn law_an_answer_is_shown_field_by_field(host: EntityView, url: Seq<char>, reply: Reply)
    ensures
        ({
            let d = page_draft(host, url, reply);
            &&& d.entity_type == EntityType::Url
            &&& d.value == reply.final_url@
            &&& d.source == "httpx"@
            &&& d.confidence == (Confidence { bits: 0x3F80_0000 })
            &&& d.metadata.member("requested_url"@) == Some(JsonView::Text(url))
            &&& d.metadata.member("status"@) == Some(JsonView::PosInt(reply.status as u64))
            &&& d.metadata.member("title"@) == Some(match title(reply.body@) {
                Some(t) => JsonView::Text(t),
                None => JsonView::Null,
            })
            &&& d.metadata.member("server"@) == Some(match reply.server {
                Some(s) => JsonView::Text(s@),
                None => JsonView::Null,
            })
            &&& d.metadata.member("x_powered_by"@) == Some(match reply.powered_by {
                Some(s) => JsonView::Text(s@),
                None => JsonView::Null,
            })
            &&& d.metadata.member("content_length"@) == Some(match reply.content_length {
                Some(n) => JsonView::PosInt(n),
                None => JsonView::Null,
            })
            &&& d.relations.len() == 1
            &&& d.relations[0] == (RelationView {
                target: host.id,
                kind: RelationKindView::DiscoveredFrom,
            })
        }),
{
    reveal_strlit("requested_url");
    reveal_strlit("status");
    reveal_strlit("title");
    reveal_strlit("server");
    reveal_strlit("x_powered_by");
    reveal_strlit("content_length");
    assert("requested_url"@.len() == 13 && "status"@.len() == 6 && "title"@.len() == 5
        && "server"@.len() == 6 && "x_powered_by"@.len() == 12 && "content_length"@.len() == 14);
    assert("status"@[1] == 't' && "server"@[1] == 'e');
}

/// The requests are made host by host, and for each host scheme by scheme, all
/// of them and no others.
pub proof fn law_requests_stand_host_by_host(
    input: Seq<EntityView>,
    hosts: Seq<int>,
    schemes: Seq<Seq<char>>,
    h: int,
    s: int,
)
    requires
        0 <= h < hosts.len(),
        0 <= s < schemes.len(),
    ensures
        probes_for(input, hosts, schemes).len() == hosts.len() * schemes.len(),
        0 <= h * schemes.len() + s < hosts.len() * schemes.len(),
        probes_for(input, hosts, schemes)[h * schemes.len() + s] == (ProbeView {
            host: hosts[h],
            url: schemes[s] + seq![':', '/', '/'] + input[hosts[h]].value,
        }),
    decreases hosts.len(),
{
    reveal_strlit("://");
    assert("://"@ =~= seq![':', '/', '/']);
    let n = schemes.len() as int;
    let m = hosts.len() as int;
    let front = probes_for(input, hosts.drop_last(), schemes);
    let own = host_probes(hosts.last(), input[hosts.last()].value, schemes);
    lemma_request_count(input, hosts.drop_last(), schemes);
    assert((m - 1) * n + n == m * n) by (nonlinear_arith);
    assert(h * n + s < m * n && 0 <= h * n + s) by (nonlinear_arith)
        requires
            0 <= h < m,
            0 <= s < n,
    ;
    if h == m - 1 {
        assert(front.len() == h * n);
        assert((front + own)[h * n + s] == own[s]);
    } else {
        law_requests_stand_host_by_host(input, hosts.drop_last(), schemes, h, s);
        assert(h * n + s < (m - 1) * n) by (nonlinear_arith)
            requires
                0 <= h < m - 1,
                0 <= s < n,
        ;
        assert((front + own)[h * n + s] == front[h * n + s]);
    }
}

proof fn lemma_request_count(input: Seq<EntityView>, hosts: Seq<int>, schemes: Seq<Seq<char>>)
    ensures
        probes_for(input, hosts, schemes).len() == hosts.len() * schemes.len(),
    decreases hosts.len(),
{
    let n = schemes.len() as int;
    let m = hosts.len() as int;
    if m > 0 {
        lemma_request_count(input, hosts.drop_last(), schemes);
        assert((m - 1) * n + n == m * n) by (nonlinear_arith);
    } else {
        assert(m * n == 0) by (nonlinear_arith)
            requires
                m == 0,
        ;
    }
}

/// The schemes are those that the settings list; where they list none, a secure
/// connection is tried before a plain one.
pub proof fn law_listed_schemes_are_tried(config: JsonView, items: Seq<JsonView>)
    ensures
        config.member("schemes"@) == Some(JsonView::Array(items)) && strings_among(items).len() > 0
            ==> schemes_asked(config) == strings_among(items),
        config.member("schemes"@) == Some(JsonView::Array(items)) && strings_among(items).len() == 0
            ==> schemes_asked(config) == seq!["https"@, "http"@],
        !(config.member("schemes"@) matches Some(JsonView::Array(_))) ==> schemes_asked(config)
            == seq!["https"@, "http"@],
{
}

/// A page whose title is not closed has no title, and neither has one whose
/// title is nothing but white space.
pub proof fn law_an_unclosed_or_empty_title_is_none(body: Seq<char>, tag: int, open: int, close: int)
    ensures
        (forall|j: int|
            0 <= j && j + 8 <= body.len() ==> (#[trigger] lower(body).subrange(j, j + 8))
                != "</title>"@) ==> title(body) is None,
        find_from(lower(body), "<title"@, 0) == Some(tag) && find_from(body, seq!['>'], tag)
            == Some(open) && find_from(lower(body), "</title>"@, open + 1) == Some(close) && (forall|
            j: int,
        |
            open < j < close ==> is_white(#[trigger] body[j])) ==> title(body) is None,
{
    reveal_strlit("<title");
    reveal_strlit("</title>");
    let low = lower(body);
    law_the_first_place_is_found(low, "<title"@, 0);
    if let Some(t) = find_from(low, "<title"@, 0) {
        law_the_first_place_is_found(body, seq!['>'], t);
        if let Some(o) = find_from(body, seq!['>'], t) {
            law_the_first_place_is_found(low, "</title>"@, o + 1);
            if let Some(c) = find_from(low, "</title>"@, o + 1) {
                assert(low.subrange(c, c + 8) == "</title>"@);
                let text = body.subrange(o + 1, c);
                let cut = law_trimming_takes_white_space_off_both_ends(text);
                if o == open && c == close && (forall|j: int|
                    open < j < close ==> is_white(#[trigger] body[j])) && trim(text).len() > 0 {
                    assert(trim(text)[0] == body[o + 1 + cut.0]);
                }
            }
        }
    }
}

} // verus!
