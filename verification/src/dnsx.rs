//! DNS resolution: which records to ask for, whom to ask, and what the answers
//! say.
use vstd::prelude::*;

use crate::dns_wire::{
    parse_response, record_views, response, RData, RDataView, Record, RecordView, TYPE_A,
    TYPE_AAAA, TYPE_CNAME, TYPE_MX, TYPE_NS, TYPE_TXT,
};
use crate::entity::{
    drafts, fresh, ids, plain_draft, Confidence, Draft, Entity, EntityType, EntityView,
    RelationKind, RelationKindView, RelationView, FULL_CONFIDENCE,
};
use crate::json::{json_text_array, put_named, text_array, Json, JsonView};
use crate::net::{ipv6_text, IpAddr, Ipv4Addr};
use crate::plugin::{PluginConfig, ReconPlugin};
use crate::text::{
    begins_with, char_lists, chars_of, decimal, first_some, lemma_somes_push, lines, same_chars,
    slice_chars, somes, split_lines, string_of, texts, to_decimal, to_upper, trim, trim_chars,
    upper,
};
use crate::tool::{strings_among, strings_of};

verus! {

/// Native DNS resolution and record lookup: talks RFC 1035 UDP directly to the
/// system's configured resolvers (falling back to public resolvers if none are
/// configured).
pub struct DnsxPlugin;

impl ReconPlugin for DnsxPlugin {
    open spec fn name_text(&self) -> Seq<char> {
        "dnsx"@
    }

    open spec fn binary_text(&self) -> Seq<char> {
        "none (native DNS resolver)"@
    }

    open spec fn inputs(&self) -> Seq<EntityType> {
        seq![EntityType::Domain, EntityType::Subdomain]
    }

    open spec fn outputs(&self) -> Seq<EntityType> {
        seq![EntityType::IpAddress]
    }

    open spec fn native(&self) -> bool {
        true
    }

    fn name(&self) -> (r: &str) {
        "dnsx"
    }

    fn required_binary(&self) -> (r: &str) {
        "none (native DNS resolver)"
    }

    fn input_types(&self) -> (r: Vec<EntityType>) {
        vec![EntityType::Domain, EntityType::Subdomain]
    }

    fn output_types(&self) -> (r: Vec<EntityType>) {
        vec![EntityType::IpAddress]
    }

    fn is_available(&self, found_on_path: bool) -> (r: bool) {
        true
    }
}

/// The record type with the given name, in whatever case it is written.
pub open spec fn record_type(name: Seq<char>) -> Option<u16> {
    let n = upper(name);
    if n == "A"@ {
        Some(TYPE_A)
    } else if n == "AAAA"@ {
        Some(TYPE_AAAA)
    } else if n == "CNAME"@ {
        Some(TYPE_CNAME)
    } else if n == "MX"@ {
        Some(TYPE_MX)
    } else if n == "TXT"@ {
        Some(TYPE_TXT)
    } else if n == "NS"@ {
        Some(TYPE_NS)
    } else {
        None
    }
}

pub fn record_type_from_str(s: &str) -> (r: Option<u16>)
    ensures
        r == record_type(s@),
{
    let name = to_upper(&chars_of(s));
    if same_chars(&name, &chars_of("A")) {
        Some(TYPE_A)
    } else if same_chars(&name, &chars_of("AAAA")) {
        Some(TYPE_AAAA)
    } else if same_chars(&name, &chars_of("CNAME")) {
        Some(TYPE_CNAME)
    } else if same_chars(&name, &chars_of("MX")) {
        Some(TYPE_MX)
    } else if same_chars(&name, &chars_of("TXT")) {
        Some(TYPE_TXT)
    } else if same_chars(&name, &chars_of("NS")) {
        Some(TYPE_NS)
    } else {
        None
    }
}

/// The record types that the configuration names.
pub open spec fn types_named(config: JsonView) -> Seq<u16> {
    match config.array_member("record_types"@) {
        Some(items) => somes(strings_among(items).map_values(|s: Seq<char>| record_type(s))),
        None => Seq::empty(),
    }
}

/// The record types to ask for: those that the configuration names, or A
/// records if it names none.
pub open spec fn types_asked(config: JsonView) -> Seq<u16> {
    if types_named(config).len() == 0 {
        seq![TYPE_A]
    } else {
        types_named(config)
    }
}

/// The record types to ask for.
pub fn record_types(config: &PluginConfig) -> (r: Vec<u16>)
    ensures
        r@ == types_asked(config@),
{
    let mut r: Vec<u16> = Vec::new();
    if let Some(items) = config.get_array("record_types") {
        let names = strings_of(items);
        let ghost views = texts(names@);
        let ghost read = |s: Seq<char>| record_type(s);
        let mut i: usize = 0;
        assert(r@ == somes(views.take(0).map_values(read)));
        while i < names.len()
            invariant
                i <= names.len(),
                views == texts(names@),
                read == (|s: Seq<char>| record_type(s)),
                r@ == somes(views.take(i as int).map_values(read)),
            decreases names.len() - i,
        {
            proof {
                assert(views.take(i + 1) == views.take(i as int).push(names@[i as int]@));
                lemma_somes_push(views.take(i as int), names@[i as int]@, read);
            }
            match record_type_from_str(names[i].as_str()) {
                Some(t) => {
                    r.push(t);
                },
                None => {},
            }
            i += 1;
        }
        assert(views.take(i as int) == views);
    }
    if r.len() == 0 {
        r.push(TYPE_A);
        assert(r@ == seq![TYPE_A]);
    }
    r
}

/// The address that a record gives.
pub open spec fn address(r: RecordView) -> Option<Seq<char>> {
    match r.rdata {
        RDataView::A(ip) => Some(ip.text()),
        RDataView::Aaaa(segments) => Some(ipv6_text(segments)),
        _ => None,
    }
}

/// The name that a record gives as the real one.
pub open spec fn canonical_name(r: RecordView) -> Option<Seq<char>> {
    match r.rdata {
        RDataView::Cname(name) => Some(name),
        _ => None,
    }
}

/// The mail server that a record gives, with its preference.
pub open spec fn mail_server(r: RecordView) -> Option<Seq<char>> {
    match r.rdata {
        RDataView::Mx { preference, exchange } => Some(
            decimal(preference as nat) + " "@ + exchange,
        ),
        _ => None,
    }
}

/// The name server that a record gives.
pub open spec fn name_server(r: RecordView) -> Option<Seq<char>> {
    match r.rdata {
        RDataView::Ns(name) => Some(name),
        _ => None,
    }
}

/// The text that a record gives.
pub open spec fn text_note(r: RecordView) -> Option<Seq<char>> {
    match r.rdata {
        RDataView::Txt(text) => Some(text),
        _ => None,
    }
}

/// What records give, of one sort.
pub open spec fn given(
    records: Seq<RecordView>,
    sort: spec_fn(RecordView) -> Option<Seq<char>>,
) -> Seq<Seq<char>> {
    somes(records.map_values(sort))
}

/// The addresses that records give.
pub open spec fn addresses(records: Seq<RecordView>) -> Seq<Seq<char>> {
    given(records, |r: RecordView| address(r))
}

/// The detail of a host: its names, mail servers, name servers and texts.
pub open spec fn detail(records: Seq<RecordView>) -> JsonView {
    JsonView::Object(
        map![
            "cname"@ => text_array(given(records, |r: RecordView| canonical_name(r))),
            "mx"@ => text_array(given(records, |r: RecordView| mail_server(r))),
            "ns"@ => text_array(given(records, |r: RecordView| name_server(r))),
            "txt"@ => text_array(given(records, |r: RecordView| text_note(r))),
        ],
    )
}

/// Whether records give nothing.
pub open spec fn nothing_given(records: Seq<RecordView>) -> bool {
    &&& addresses(records).len() == 0
    &&& given(records, |r: RecordView| canonical_name(r)).len() == 0
    &&& given(records, |r: RecordView| mail_server(r)).len() == 0
    &&& given(records, |r: RecordView| name_server(r)).len() == 0
    &&& given(records, |r: RecordView| text_note(r)).len() == 0
}

/// What the records of a host say: its addresses, then the host again with its
/// detail and links to the addresses, which have the given ids.
pub open spec fn host_drafts(
    host: EntityView,
    records: Seq<RecordView>,
    found: Seq<u128>,
) -> Seq<Draft> {
    if nothing_given(records) {
        Seq::empty()
    } else {
        addresses(records).map_values(
            |a: Seq<char>| plain_draft(EntityType::IpAddress, a, "dnsx"@),
        ).push(
            Draft {
                entity_type: host.entity_type,
                value: host.value,
                source: "dnsx"@,
                confidence: Confidence { bits: FULL_CONFIDENCE },
                metadata: detail(records),
                relations: Seq::new(
                    addresses(records).len(),
                    |k: int|
                        RelationView { target: found[k], kind: RelationKindView::ResolvesTo },
                ),
            },
        )
    }
}

/// The entities for the records of a host. The host itself comes last; an
/// entity graph merges it with the host that is already there.
pub fn host_entities(host: &Entity, records: &Vec<Record>) -> (r: Vec<Entity>)
    ensures
        drafts(r@) == host_drafts(host@, record_views(records@), ids(r@)),
        fresh(r@),
{
    let ghost views = record_views(records@);
    let ghost f_addr = |r: RecordView| address(r);
    let ghost f_cname = |r: RecordView| canonical_name(r);
    let ghost f_mx = |r: RecordView| mail_server(r);
    let ghost f_ns = |r: RecordView| name_server(r);
    let ghost f_txt = |r: RecordView| text_note(r);
    let mut ips: Vec<String> = Vec::new();
    let mut cnames: Vec<String> = Vec::new();
    let mut mxs: Vec<String> = Vec::new();
    let mut nss: Vec<String> = Vec::new();
    let mut txts: Vec<String> = Vec::new();
    let mut i: usize = 0;
    proof {
        let none = Seq::<Seq<char>>::empty();
        assert(views.take(0).map_values(f_addr).len() == 0);
        assert(texts(ips@) == none);
        assert(texts(cnames@) == none);
        assert(texts(mxs@) == none);
        assert(texts(nss@) == none);
        assert(texts(txts@) == none);
    }
    while i < records.len()
        invariant
            i <= records.len(),
            views == record_views(records@),
            f_addr == (|r: RecordView| address(r)),
            f_cname == (|r: RecordView| canonical_name(r)),
            f_mx == (|r: RecordView| mail_server(r)),
            f_ns == (|r: RecordView| name_server(r)),
            f_txt == (|r: RecordView| text_note(r)),
            texts(ips@) == given(views.take(i as int), f_addr),
            texts(cnames@) == given(views.take(i as int), f_cname),
            texts(mxs@) == given(views.take(i as int), f_mx),
            texts(nss@) == given(views.take(i as int), f_ns),
            texts(txts@) == given(views.take(i as int), f_txt),
        decreases records.len() - i,
    {
        let record = &records[i];
        proof {
            let front = views.take(i as int);
            assert(views.take(i + 1) == front.push(record@));
            lemma_somes_push(front, record@, f_addr);
            lemma_somes_push(front, record@, f_cname);
            lemma_somes_push(front, record@, f_mx);
            lemma_somes_push(front, record@, f_ns);
            lemma_somes_push(front, record@, f_txt);
        }
        match &record.rdata {
            RData::A(ip) => push_text(&mut ips, ip.to_string()),
            RData::Aaaa(ip) => push_text(&mut ips, ip.to_string()),
            RData::Cname(name) => push_text(&mut cnames, name.clone()),
            RData::Mx { preference, exchange } => {
                let mut m = to_decimal(*preference as u64);
                m.append(" ");
                m.append(exchange.as_str());
                push_text(&mut mxs, m);
            },
            RData::Ns(name) => push_text(&mut nss, name.clone()),
            RData::Txt(text) => push_text(&mut txts, text.clone()),
            RData::Other => {},
        }
        i += 1;
    }
    assert(views.take(i as int) == views);

    let mut r: Vec<Entity> = Vec::new();
    assert(texts(ips@).len() == ips@.len());
    assert(texts(cnames@).len() == cnames@.len());
    assert(texts(mxs@).len() == mxs@.len());
    assert(texts(nss@).len() == nss@.len());
    assert(texts(txts@).len() == txts@.len());
    if ips.len() == 0 && cnames.len() == 0 && mxs.len() == 0 && nss.len() == 0 && txts.len() == 0 {
        assert(drafts(r@) == Seq::<Draft>::empty());
        return r;
    }
    let mut k: usize = 0;
    while k < ips.len()
        invariant
            k <= ips.len(),
            r@.len() == k,
            fresh(r@),
            forall|m: int|
                0 <= m < k ==> (#[trigger] r@[m])@.draft() == plain_draft(
                    EntityType::IpAddress,
                    ips@[m]@,
                    "dnsx"@,
                ),
        decreases ips.len() - k,
    {
        r.push(Entity::new(EntityType::IpAddress, ips[k].as_str(), "dnsx"));
        k += 1;
    }

    let mut members: Vec<(String, Json)> = Vec::new();
    put_named(&mut members, "cname", json_text_array(&cnames));
    put_named(&mut members, "mx", json_text_array(&mxs));
    put_named(&mut members, "ns", json_text_array(&nss));
    put_named(&mut members, "txt", json_text_array(&txts));
    let mut updated = Entity::new(host.entity_type, host.value.as_str(), "dnsx").with_metadata(
        Json::Object(members),
    );
    assert(updated@.metadata == detail(views));
    let ghost plain = updated@;
    let mut t: usize = 0;
    while t < r.len()
        invariant
            t <= r.len(),
            is_fresh_host(updated, plain),
            updated@.relations.len() == t,
            forall|m: int|
                0 <= m < t ==> (#[trigger] updated@.relations[m]) == (RelationView {
                    target: r@[m].id,
                    kind: RelationKindView::ResolvesTo,
                }),
        decreases r.len() - t,
    {
        updated = updated.with_relation(r[t].id, RelationKind::ResolvesTo);
        t += 1;
    }
    let ghost found = r@;
    r.push(updated);
    proof {
        let want = host_drafts(host@, views, ids(r@));
        assert(drafts(r@).len() == want.len());
        assert forall|m: int| 0 <= m < want.len() implies drafts(r@)[m] == want[m] by {
            if m < found.len() {
                assert(r@[m] == found[m]);
                assert(texts(ips@)[m] == ips@[m]@);
            } else {
                assert(r@[m] == updated);
                assert(updated@.relations == want[m].relations);
            }
        }
        assert(drafts(r@) =~= want);
    }
    r
}

spec fn is_fresh_host(e: Entity, plain: EntityView) -> bool {
    &&& crate::entity::is_random_id(e.id)
    &&& e@ == EntityView { relations: e@.relations, ..plain }
}

fn push_text(v: &mut Vec<String>, s: String)
    ensures
        texts(final(v)@) == texts(old(v)@).push(s@),
{
    v.push(s);
    assert(texts(v@) == texts(old(v)@).push(s@));
}

/// The ids of queries: each is used once before any is used again.
pub struct QueryIds {
    pub next: u16,
}

impl QueryIds {
    pub fn new() -> (r: Self)
        ensures
            r.next == 0,
    {
        QueryIds { next: 0 }
    }

    /// The id for the next query. After the greatest comes zero again.
    pub fn next_query_id(&mut self) -> (r: u16)
        ensures
            r == old(self).next,
            final(self).next == later_id(old(self).next, 1),
    {
        let id: u16 = self.next;
        self.next = if id == u16::MAX {
            0
        } else {
            id + 1
        };
        id
    }
}

/// The id that is given out after the given number of others.
pub open spec fn later_id(first: u16, n: nat) -> u16 {
    ((first + n) % 0x1_0000) as u16
}

/// An id comes back only after all others were given out.
pub proof fn law_query_ids_do_not_repeat_soon(first: u16, i: nat, j: nat)
    requires
        i < j < i + 0x1_0000,
    ensures
        later_id(first, i) != later_id(first, j),
        later_id(later_id(first, i), 1) == later_id(first, i + 1),
{
}

/// What stands behind the word `nameserver` in a line of `resolv.conf`.
pub open spec fn nameserver_entry(line: Seq<char>) -> Option<Seq<char>> {
    let l = trim(line);
    if "nameserver"@.is_prefix_of(l) {
        Some(trim(l.skip("nameserver"@.len() as int)))
    } else {
        None
    }
}

/// The name servers that a `resolv.conf` lists, as they are written.
pub fn nameserver_entries(contents: &str) -> (r: Vec<String>)
    ensures
        texts(r@) == somes(lines(contents@).map_values(|l: Seq<char>| nameserver_entry(l))),
{
    let all = split_lines(&chars_of(contents));
    let word = chars_of("nameserver");
    let ghost views = char_lists(all@);
    let ghost read = |l: Seq<char>| nameserver_entry(l);
    let mut r: Vec<String> = Vec::new();
    let mut i: usize = 0;
    assert(texts(r@) == somes(views.take(0).map_values(read)));
    while i < all.len()
        invariant
            i <= all.len(),
            word@ == "nameserver"@,
            views == char_lists(all@),
            read == (|l: Seq<char>| nameserver_entry(l)),
            texts(r@) == somes(views.take(i as int).map_values(read)),
        decreases all.len() - i,
    {
        let line = trim_chars(&all[i]);
        proof {
            assert(views.take(i + 1) == views.take(i as int).push(all@[i as int]@));
            lemma_somes_push(views.take(i as int), all@[i as int]@, read);
        }
        if begins_with(&line, &word) {
            let rest = slice_chars(&line, word.len(), line.len());
            assert(rest@ == line@.skip(word@.len() as int));
            push_text(&mut r, string_of(&trim_chars(&rest)));
        }
        i += 1;
    }
    assert(views.take(i as int) == views);
    r
}

/// The servers to ask: those that could be read, or public ones if there are
/// none.
pub open spec fn servers_asked(listed: Seq<Option<IpAddr>>) -> Seq<IpAddr> {
    if somes(listed).len() == 0 {
        seq![
            IpAddr::V4(Ipv4Addr { a: 1, b: 1, c: 1, d: 1 }),
            IpAddr::V4(Ipv4Addr { a: 8, b: 8, c: 8, d: 8 }),
        ]
    } else {
        somes(listed)
    }
}

/// The servers to ask, given what the entries of `resolv.conf` stand for: an
/// entry that is no address does not count.
pub fn resolvers(listed: &Vec<Option<IpAddr>>) -> (r: Vec<IpAddr>)
    ensures
        r@ == servers_asked(listed@),
{
    let mut r: Vec<IpAddr> = Vec::new();
    let mut i: usize = 0;
    assert(r@ == somes(listed@.take(0)));
    while i < listed.len()
        invariant
            i <= listed.len(),
            r@ == somes(listed@.take(i as int)),
        decreases listed.len() - i,
    {
        assert(listed@.take(i + 1).drop_last() == listed@.take(i as int));
        match listed[i] {
            Some(ip) => {
                r.push(ip);
            },
            None => {},
        }
        i += 1;
    }
    assert(listed@.take(i as int) == listed@);
    if r.len() == 0 {
        r.push(IpAddr::V4(Ipv4Addr::new(1, 1, 1, 1)));
        r.push(IpAddr::V4(Ipv4Addr::new(8, 8, 8, 8)));
        assert(r@ == servers_asked(listed@));
    }
    r
}

/// The records that were read, if any.
pub open spec fn answer_view(a: Option<Vec<Record>>) -> Option<Seq<RecordView>> {
    match a {
        Some(records) => Some(record_views(records@)),
        None => None,
    }
}

/// What a reply to a query says: nothing where none came or it cannot be
/// trusted.
pub open spec fn reply_read(id: u16, reply: Option<Seq<u8>>) -> Option<Seq<RecordView>> {
    match reply {
        Some(bytes) => response(bytes, id),
        None => None,
    }
}

/// A question that servers are asked one after the other until one answers:
/// the servers, how many were asked, and the answer.
pub struct Inquiry {
    pub servers: Vec<IpAddr>,
    pub asked: usize,
    pub answer: Option<Vec<Record>>,
}

/// The mathematical model of a question that servers are asked.
pub struct InquiryView {
    pub servers: Seq<IpAddr>,
    pub asked: int,
    pub answer: Option<Seq<RecordView>>,
}

impl View for Inquiry {
    type V = InquiryView;

    open spec fn view(&self) -> InquiryView {
        InquiryView {
            servers: self.servers@,
            asked: self.asked as int,
            answer: answer_view(self.answer),
        }
    }
}

/// A question that no server was asked yet.
pub open spec fn new_inquiry(servers: Seq<IpAddr>) -> InquiryView {
    InquiryView { servers, asked: 0, answer: None }
}

impl InquiryView {
    /// The server to ask next.
    pub open spec fn next(self) -> Option<IpAddr> {
        if self.answer is None && self.asked < self.servers.len() {
            Some(self.servers[self.asked])
        } else {
            None
        }
    }

    /// The question once the next server was asked, with what it said.
    pub open spec fn after(self, reply: Option<Seq<RecordView>>) -> InquiryView {
        InquiryView { servers: self.servers, asked: self.asked + 1, answer: reply }
    }
}

impl Inquiry {
    pub fn new(servers: &Vec<IpAddr>) -> (r: Self)
        ensures
            r.servers@ == servers@,
            r.asked == 0,
            r.answer is None,
            r@ == new_inquiry(servers@),
    {
        let mut copies: Vec<IpAddr> = Vec::new();
        let mut i: usize = 0;
        while i < servers.len()
            invariant
                i <= servers.len(),
                copies@ == servers@.take(i as int),
            decreases servers.len() - i,
        {
            copies.push(servers[i]);
            assert(servers@.take(i + 1) == servers@.take(i as int).push(servers@[i as int]));
            i += 1;
        }
        assert(servers@.take(i as int) == servers@);
        Inquiry { servers: copies, asked: 0, answer: None }
    }

    /// The server to ask next: the first that was not asked, as long as there
    /// is no answer.
    pub fn next_server(&self) -> (r: Option<IpAddr>)
        ensures
            r == if self.answer is None && self.asked < self.servers@.len() {
                Some(self.servers@[self.asked as int])
            } else {
                None
            },
            r == self@.next(),
    {
        if self.answer.is_none() && self.asked < self.servers.len() {
            Some(self.servers[self.asked])
        } else {
            None
        }
    }

    /// Takes what came back from the server that was asked with the given query
    /// id, if anything did.
    pub fn take(&mut self, id: u16, reply: Option<&[u8]>)
        requires
            old(self).answer is None,
            old(self).asked < old(self).servers@.len(),
        ensures
            final(self).servers == old(self).servers,
            final(self).asked == old(self).asked + 1,
            answer_view(final(self).answer) == reply_read(
                id,
                match reply {
                    Some(bytes) => Some(bytes@),
                    None => None,
                },
            ),
            final(self)@ == old(self)@.after(
                reply_read(
                    id,
                    match reply {
                        Some(bytes) => Some(bytes@),
                        None => None,
                    },
                ),
            ),
    {
        assert(self.asked < self.servers.len());
        self.asked = self.asked + 1;
        self.answer = match reply {
            Some(bytes) => parse_response(bytes, id),
            None => None,
        };
    }

    /// The records of the answer; none if no server gave one.
    pub fn finish(self) -> (r: Vec<Record>)
        ensures
            record_views(r@) == match answer_view(self.answer) {
                Some(records) => records,
                None => Seq::empty(),
            },
    {
        match self.answer {
            Some(records) => records,
            None => {
                let none: Vec<Record> = Vec::new();
                assert(record_views(none@) == Seq::<RecordView>::empty());
                none
            },
        }
    }
}

/// The first answer that can be read is the result of asking one server after
/// the other while there is no answer, and there is none exactly if no reply
/// can be read.
pub proof fn law_the_first_answer_counts(replies: Seq<Option<Seq<RecordView>>>)
    ensures
        replies.len() > 0 ==> first_some(replies) == match first_some(replies.drop_last()) {
            Some(records) => Some(records),
            None => replies.last(),
        },
        first_some(replies) is None <==> forall|i: int|
            0 <= i < replies.len() ==> (#[trigger] replies[i]) is None,
        first_some(replies) is Some ==> exists|i: int|
            0 <= i < replies.len() && #[trigger] replies[i] == first_some(replies) && forall|
                k: int,
            |
                0 <= k < i ==> (#[trigger] replies[k]) is None,
    decreases replies.len(),
{
    if replies.len() > 0 {
        let front = replies.drop_last();
        let last = replies.len() - 1;
        law_the_first_answer_counts(front);
        if first_some(front) is Some {
            let i = choose|i: int|
                0 <= i < front.len() && #[trigger] front[i] == first_some(front) && forall|
                    k: int,
                |
                    0 <= k < i ==> (#[trigger] front[k]) is None;
            assert(replies[i] == front[i]);
            assert forall|k: int| 0 <= k < i implies (#[trigger] replies[k]) is None by {
                assert(front[k] == replies[k]);
            }
        } else {
            assert forall|k: int| 0 <= k < last implies (#[trigger] replies[k]) is None by {
                assert(front[k] == replies[k]);
            }
            assert(replies[last] == first_some(replies));
        }
    }
}

/// A host is linked to each of its addresses, and its detail is kept under the
/// host's own kind and value, so that it merges with what is known of the host.
pub proof fn law_host_is_linked_to_its_addresses(
    host: EntityView,
    records: Seq<RecordView>,
    found: Seq<u128>,
    k: int,
)
    requires
        0 <= k < addresses(records).len(),
    ensures
        host_drafts(host, records, found).len() == addresses(records).len() + 1,
        host_drafts(host, records, found)[k].value == addresses(records)[k],
        host_drafts(host, records, found).last().relations[k].target == found[k],
        host_drafts(host, records, found).last().entity_type == host.entity_type,
        host_drafts(host, records, found).last().value == host.value,
{
}

} // verus!
