//! What holds of DNS lookups, whatever is asked and answered.
use vstd::prelude::*;

use crate::dns_wire::{record_views, response, RDataView, Record, RecordView};
use crate::dnsx::{
    address, addresses, canonical_name, detail, given, host_drafts, mail_server, name_server,
    nameserver_entries, nameserver_entry, new_inquiry, nothing_given, record_type, reply_read,
    servers_asked, text_note, types_asked, types_named, Inquiry, InquiryView,
};
use crate::entity::{Confidence, EntityType, EntityView, RelationKindView, RelationView};
use crate::json::{text_array, JsonView};
use crate::net::{ipv6_text, IpAddr, Ipv4Addr};
use crate::text::{decimal, is_white, lines, somes, texts, trim, upper};
use crate::text_laws::{
    law_first_line, law_present_items_stay_in_order, law_text_in_white_space_is_left,
};
use crate::tool::strings_among;
use crate::tool_laws::{law_texts_are_picked_in_order, lemma_no_somes, lemma_somes_grow};

verus! {

/// A list in the detail of a host.
pub open spec fn listed(records: Seq<RecordView>, key: Seq<char>) -> Seq<JsonView> {
    detail(records)->Object_0[key]->Array_0
}

proof fn lemma_given_grows(
    front: Seq<RecordView>,
    r: RecordView,
    sort: spec_fn(RecordView) -> Option<Seq<char>>,
)
    ensures
        given(front.push(r), sort) == match sort(r) {
            Some(t) => given(front, sort).push(t),
            None => given(front, sort),
        },
        given(Seq::empty(), sort) == Seq::<Seq<char>>::empty(),
        text_array(given(front.push(r), sort))->Array_0 == match sort(r) {
            Some(t) => text_array(given(front, sort))->Array_0.push(JsonView::Text(t)),
            None => text_array(given(front, sort))->Array_0,
        },
{
    assert(front.push(r).map_values(sort) =~= front.map_values(sort).push(sort(r)));
    lemma_somes_grow(front.map_values(sort), sort(r));
    assert(Seq::<RecordView>::empty().map_values(sort) =~= Seq::<Option<Seq<char>>>::empty());
    if let Some(t) = sort(r) {
        assert(text_array(given(front, sort).push(t))->Array_0 =~= text_array(
            given(front, sort),
        )->Array_0.push(JsonView::Text(t)));
    }
}

proof fn lemma_lists(records: Seq<RecordView>)
    ensures
        detail(records) is Object,
        detail(records)->Object_0.dom() == set!["cname"@, "mx"@, "ns"@, "txt"@],
        listed(records, "cname"@) == text_array(
            given(records, |r: RecordView| canonical_name(r)),
        )->Array_0,
        listed(records, "mx"@) == text_array(
            given(records, |r: RecordView| mail_server(r)),
        )->Array_0,
        listed(records, "ns"@) == text_array(
            given(records, |r: RecordView| name_server(r)),
        )->Array_0,
        listed(records, "txt"@) == text_array(
            given(records, |r: RecordView| text_note(r)),
        )->Array_0,
{
    reveal_strlit("cname");
    reveal_strlit("mx");
    reveal_strlit("ns");
    reveal_strlit("txt");
    assert("cname"@.len() == 5 && "mx"@.len() == 2 && "ns"@.len() == 2 && "txt"@.len() == 3);
    assert("mx"@[0] == 'm' && "ns"@[0] == 'n');
    assert(detail(records)->Object_0.dom() =~= set!["cname"@, "mx"@, "ns"@, "txt"@]);
}

/// Each record adds what it says to the list of its own kind and to no other:
/// an address to the addresses, an alias to `cname`, a mail server with its
/// preference to `mx`, a name server to `ns`, a text to `txt`.
pub proof fn law_each_record_counts_as_what_it_is(front: Seq<RecordView>, r: RecordView)
    ensures
        ({
            let all = front.push(r);
            &&& addresses(all) == match r.rdata {
                RDataView::A(ip) => addresses(front).push(ip.text()),
                RDataView::Aaaa(segments) => addresses(front).push(ipv6_text(segments)),
                _ => addresses(front),
            }
            &&& listed(all, "cname"@) == match r.rdata {
                RDataView::Cname(name) => listed(front, "cname"@).push(JsonView::Text(name)),
                _ => listed(front, "cname"@),
            }
            &&& listed(all, "mx"@) == match r.rdata {
                RDataView::Mx { preference, exchange } => listed(front, "mx"@).push(
                    JsonView::Text(decimal(preference as nat) + seq![' '] + exchange),
                ),
                _ => listed(front, "mx"@),
            }
            &&& listed(all, "ns"@) == match r.rdata {
                RDataView::Ns(name) => listed(front, "ns"@).push(JsonView::Text(name)),
                _ => listed(front, "ns"@),
            }
            &&& listed(all, "txt"@) == match r.rdata {
                RDataView::Txt(text) => listed(front, "txt"@).push(JsonView::Text(text)),
                _ => listed(front, "txt"@),
            }
        }),
{
    reveal_strlit(" ");
    assert(" "@ =~= seq![' ']);
    lemma_lists(front);
    lemma_lists(front.push(r));
    lemma_given_grows(front, r, |r: RecordView| address(r));
    lemma_given_grows(front, r, |r: RecordView| canonical_name(r));
    lemma_given_grows(front, r, |r: RecordView| mail_server(r));
    lemma_given_grows(front, r, |r: RecordView| name_server(r));
    lemma_given_grows(front, r, |r: RecordView| text_note(r));
}

/// Without records there are no addresses, and every list is empty.
pub proof fn law_no_records_say_nothing()
    ensures
        addresses(Seq::empty()) == Seq::<Seq<char>>::empty(),
        listed(Seq::empty(), "cname"@) == Seq::<JsonView>::empty(),
        listed(Seq::empty(), "mx"@) == Seq::<JsonView>::empty(),
        listed(Seq::empty(), "ns"@) == Seq::<JsonView>::empty(),
        listed(Seq::empty(), "txt"@) == Seq::<JsonView>::empty(),
{
    let none = Seq::<RecordView>::empty();
    let any = RecordView { rtype: 0, rdata: RDataView::Other };
    lemma_lists(none);
    lemma_given_grows(none, any, |r: RecordView| address(r));
    lemma_given_grows(none, any, |r: RecordView| canonical_name(r));
    lemma_given_grows(none, any, |r: RecordView| mail_server(r));
    lemma_given_grows(none, any, |r: RecordView| name_server(r));
    lemma_given_grows(none, any, |r: RecordView| text_note(r));
    assert(text_array(Seq::empty())->Array_0 =~= Seq::<JsonView>::empty());
}

/// A lookup leads to something if and only if a record says something.
pub proof fn law_a_lookup_leads_to_something_if_a_record_says_something(
    host: EntityView,
    records: Seq<RecordView>,
    found: Seq<u128>,
)
    ensures
        host_drafts(host, records, found).len() == 0 <==> forall|i: int|
            0 <= i < records.len() ==> (#[trigger] records[i]).rdata is Other,
{
    let a = |r: RecordView| address(r);
    let c = |r: RecordView| canonical_name(r);
    let m = |r: RecordView| mail_server(r);
    let n = |r: RecordView| name_server(r);
    let t = |r: RecordView| text_note(r);
    lemma_no_somes(records.map_values(a));
    lemma_no_somes(records.map_values(c));
    lemma_no_somes(records.map_values(m));
    lemma_no_somes(records.map_values(n));
    lemma_no_somes(records.map_values(t));
    if nothing_given(records) {
        assert forall|i: int| 0 <= i < records.len() implies (#[trigger] records[i]).rdata
            is Other by {
            assert(records.map_values(a)[i] is None);
            assert(records.map_values(c)[i] is None);
            assert(records.map_values(m)[i] is None);
            assert(records.map_values(n)[i] is None);
            assert(records.map_values(t)[i] is None);
        }
    }
    if forall|i: int| 0 <= i < records.len() ==> (#[trigger] records[i]).rdata is Other {
        assert forall|i: int| 0 <= i < records.len() implies (#[trigger] records.map_values(a)[i])
            is None by {
            assert(records[i].rdata is Other);
        }
        assert forall|i: int| 0 <= i < records.len() implies (#[trigger] records.map_values(c)[i])
            is None by {
            assert(records[i].rdata is Other);
        }
        assert forall|i: int| 0 <= i < records.len() implies (#[trigger] records.map_values(m)[i])
            is None by {
            assert(records[i].rdata is Other);
        }
        assert forall|i: int| 0 <= i < records.len() implies (#[trigger] records.map_values(n)[i])
            is None by {
            assert(records[i].rdata is Other);
        }
        assert forall|i: int| 0 <= i < records.len() implies (#[trigger] records.map_values(t)[i])
            is None by {
            assert(records[i].rdata is Other);
        }
    }
}

/// A lookup leads to each address as an address, and last to the host itself,
/// under its own kind and value, with its lists and a link to each address.
pub proof fn law_a_lookup_leads_to_addresses_and_the_host(
    host: EntityView,
    records: Seq<RecordView>,
    found: Seq<u128>,
    k: int,
)
    requires
        host_drafts(host, records, found).len() > 0,
    ensures
        ({
            let all = host_drafts(host, records, found);
            let last = all.last();
            let n = addresses(records).len();
            &&& all.len() == n + 1
            &&& 0 <= k < n ==> all[k].entity_type == EntityType::IpAddress && all[k].value
                == addresses(records)[k] && all[k].source == "dnsx"@ && all[k].relations.len() == 0
                && last.relations[k] == (RelationView {
                target: found[k],
                kind: RelationKindView::ResolvesTo,
            })
            &&& last.entity_type == host.entity_type
            &&& last.value == host.value
            &&& last.source == "dnsx"@
            &&& last.confidence == (Confidence { bits: 0x3F80_0000 })
            &&& last.metadata == detail(records)
            &&& last.relations.len() == n
        }),
{
}

/// The types of records by their names, in whatever case these are written.
pub proof fn law_record_types_have_names(name: Seq<char>)
    ensures
        record_type(name) == Some(1u16) <==> upper(name) == "A"@,
        record_type(name) == Some(2u16) <==> upper(name) == "NS"@,
        record_type(name) == Some(5u16) <==> upper(name) == "CNAME"@,
        record_type(name) == Some(15u16) <==> upper(name) == "MX"@,
        record_type(name) == Some(16u16) <==> upper(name) == "TXT"@,
        record_type(name) == Some(28u16) <==> upper(name) == "AAAA"@,
        record_type(name) matches Some(t) ==> t == 1 || t == 2 || t == 5 || t == 15 || t == 16 || t
            == 28,
{
    reveal_strlit("A");
    reveal_strlit("AAAA");
    reveal_strlit("CNAME");
    reveal_strlit("MX");
    reveal_strlit("TXT");
    reveal_strlit("NS");
    assert("A"@.len() == 1 && "AAAA"@.len() == 4 && "CNAME"@.len() == 5 && "MX"@.len() == 2
        && "TXT"@.len() == 3 && "NS"@.len() == 2);
    assert("MX"@[0] == 'M' && "NS"@[0] == 'N');
}

/// The types that are asked for are those that the settings name, in order and
/// without what names no type; where they name none, it is addresses.
pub proof fn law_the_named_types_are_asked_for(
    config: JsonView,
    longer: JsonView,
    items: Seq<JsonView>,
    v: JsonView,
)
    requires
        config.member("record_types"@) == Some(JsonView::Array(items)),
        longer.member("record_types"@) == Some(JsonView::Array(items.push(v))),
    ensures
        items.len() == 0 ==> types_named(config) == Seq::<u16>::empty(),
        types_named(longer) == match v {
            JsonView::Text(s) => match record_type(s) {
                Some(t) => types_named(config).push(t),
                None => types_named(config),
            },
            _ => types_named(config),
        },
        types_asked(config) == if types_named(config).len() == 0 {
            seq![1u16]
        } else {
            types_named(config)
        },
{
    law_texts_are_picked_in_order(items, v);
    let read = |s: Seq<char>| record_type(s);
    let before = strings_among(items);
    if let JsonView::Text(s) = v {
        assert(before.push(s).map_values(read) =~= before.map_values(read).push(record_type(s)));
        lemma_somes_grow(before.map_values(read), record_type(s));
    }
    if items.len() == 0 {
        assert(items =~= Seq::<JsonView>::empty());
        assert(before.map_values(read) =~= Seq::<Option<u16>>::empty());
    }
}

/// Settings that do not list types ask for addresses.
pub proof fn law_without_settings_addresses_are_asked_for(config: JsonView)
    requires
        !(config.member("record_types"@) matches Some(JsonView::Array(_))),
    ensures
        types_asked(config) == seq![1u16],
{
}

/// A line of `resolv.conf` that has the word `nameserver` in front names what
/// stands behind it, whatever white space stands around; any other line names
/// nothing.
pub proof fn law_a_nameserver_line_names_a_server(
    before: Seq<char>,
    gap: Seq<char>,
    server: Seq<char>,
    after: Seq<char>,
    line: Seq<char>,
)
    requires
        forall|i: int| 0 <= i < before.len() ==> is_white(#[trigger] before[i]),
        forall|i: int| 0 <= i < gap.len() ==> is_white(#[trigger] gap[i]),
        forall|i: int| 0 <= i < after.len() ==> is_white(#[trigger] after[i]),
        server.len() > 0,
        !is_white(server[0]),
        !is_white(server.last()),
    ensures
        nameserver_entry(before + "nameserver"@ + gap + server + after) == Some(server),
        !"nameserver"@.is_prefix_of(trim(line)) ==> nameserver_entry(line) is None,
{
    let word = "nameserver"@;
    reveal_strlit("nameserver");
    let core = word + gap + server;
    let none = Seq::<char>::empty();
    assert(core[0] == 'n');
    assert(core.last() == server.last());
    law_text_in_white_space_is_left(before, core, after);
    assert(before + core + after =~= before + word + gap + server + after);
    assert(word.is_prefix_of(core)) by {
        assert(core.take(word.len() as int) =~= word);
    }
    assert(core.skip(word.len() as int) =~= gap + server);
    law_text_in_white_space_is_left(gap, server, none);
    assert(gap + server + none =~= gap + server);
}

/// The servers that are asked are those that could be read, in order; where
/// there are none, two public ones.
pub proof fn law_listed_servers_are_asked(listed: Seq<Option<IpAddr>>, ip: IpAddr)
    ensures
        servers_asked(listed.push(Some(ip))) == somes(listed).push(ip),
        somes(listed).len() > 0 ==> servers_asked(listed) == somes(listed),
        (forall|i: int| 0 <= i < listed.len() ==> (#[trigger] listed[i]) is None) ==> servers_asked(
            listed,
        ) == seq![
            IpAddr::V4(Ipv4Addr { a: 1, b: 1, c: 1, d: 1 }),
            IpAddr::V4(Ipv4Addr { a: 8, b: 8, c: 8, d: 8 }),
        ],
{
    lemma_somes_grow(listed, Some(ip));
    lemma_no_somes(listed);
}

/// The question after servers have said something, one after the other.
pub open spec fn asked_in_turn(
    servers: Seq<IpAddr>,
    replies: Seq<Option<Seq<RecordView>>>,
) -> InquiryView
    decreases replies.len(),
{
    if replies.len() == 0 {
        new_inquiry(servers)
    } else {
        asked_in_turn(servers, replies.drop_last()).after(replies.last())
    }
}

/// Servers are asked one after the other, none left out, until one says
/// something that can be read; that is the answer, and no other is asked.
pub proof fn law_servers_are_asked_one_after_the_other(
    servers: Seq<IpAddr>,
    replies: Seq<Option<Seq<RecordView>>>,
    records: Seq<RecordView>,
)
    requires
        forall|i: int| 0 <= i < replies.len() ==> (#[trigger] replies[i]) is None,
    ensures
        replies.len() < servers.len() ==> asked_in_turn(servers, replies).next() == Some(
            servers[replies.len() as int],
        ),
        replies.len() >= servers.len() ==> asked_in_turn(servers, replies).next() is None,
        asked_in_turn(servers, replies).answer is None,
        asked_in_turn(servers, replies.push(Some(records))).answer == Some(records),
        asked_in_turn(servers, replies.push(Some(records))).next() is None,
    decreases replies.len(),
{
    assert(replies.push(Some(records)).drop_last() == replies);
    if replies.len() > 0 {
        let front = replies.drop_last();
        assert forall|i: int| 0 <= i < front.len() implies (#[trigger] front[i]) is None by {
            assert(front[i] == replies[i]);
        }
        assert(replies[replies.len() - 1] is None);
        law_servers_are_asked_one_after_the_other(servers, front, records);
        lemma_asked_count(servers, replies);
    }
}

proof fn lemma_asked_count(servers: Seq<IpAddr>, replies: Seq<Option<Seq<RecordView>>>)
    ensures
        asked_in_turn(servers, replies).asked == replies.len(),
        asked_in_turn(servers, replies).servers == servers,
    decreases replies.len(),
{
    if replies.len() > 0 {
        lemma_asked_count(servers, replies.drop_last());
    }
}

/// Where nothing came back nothing is read, and else what came back is read as
/// a response to the query.
pub proof fn law_what_came_back_is_read(id: u16, bytes: Seq<u8>)
    ensures
        reply_read(id, None) is None,
        reply_read(id, Some(bytes)) == response(bytes, id),
{
}

/// The records of a question are those of its answer, or none.
pub proof fn law_a_question_ends_with_its_answer(inquiry: Inquiry, r: Vec<Record>)
    requires
        call_ensures(Inquiry::finish, (inquiry,), r),
    ensures
        inquiry@.answer is None ==> r@.len() == 0,
        inquiry@.answer is Some ==> record_views(r@) == inquiry@.answer->0,
{
    assert(record_views(r@).len() == r@.len());
}

/// A `resolv.conf` is read line by line: a line that names a server adds it,
/// and any other adds nothing.
pub proof fn law_servers_are_listed_line_by_line(
    contents: &str,
    r: Vec<String>,
    shorter: &str,
    others: Vec<String>,
    line: Seq<char>,
)
    requires
        call_ensures(nameserver_entries, (contents,), r),
        call_ensures(nameserver_entries, (shorter,), others),
        !line.contains('\n'),
        line.len() > 0 ==> line.last() != '\r',
        contents@ == line + seq!['\n'] + shorter@,
    ensures
        texts(r@) == (match nameserver_entry(line) {
            Some(server) => seq![server],
            None => Seq::empty(),
        }) + texts(others@),
{
    let read = |l: Seq<char>| nameserver_entry(l);
    let rest = lines(shorter@);
    law_first_line(line, shorter@);
    assert((seq![line] + rest).map_values(read) =~= seq![nameserver_entry(line)] + rest.map_values(
        read,
    ));
    law_present_items_stay_in_order(
        seq![nameserver_entry(line)],
        rest.map_values(read),
        nameserver_entry(line)->0,
    );
}

} // verus!
