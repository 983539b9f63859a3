//! What holds of port scans, whatever ports are open.
use vstd::prelude::*;

use crate::entity::{
    drafts, entity_views, ids, Confidence, Entity, EntityType, EntityView, RelationKindView,
    RelationView,
};
use crate::json::JsonView;
use crate::portscan::{
    all_drafts, by_host, default_ports, findings, group_drafts, host_at, insert_sorted, law_ports_are_sorted,
    port_draft, port_named, ports_asked, relevant, scanned, usual_service, with_open,
    OpenPortsView,
};
use crate::text::{decimal, somes};
use crate::text_laws::{law_written_numbers_read_back, number_value};
use crate::tool_laws::lemma_somes_grow;

verus! {

/// An open port is called by its host, a colon and its number in decimal, and
/// shown with its number, as an open TCP port.
pub proof fn law_an_open_port_is_shown_with_host_and_number(host: Seq<char>, port: u16)
    ensures
        ({
            let d = port_draft(host, port);
            &&& d.entity_type == EntityType::Port
            &&& d.value.len() > host.len()
            &&& d.value.take(host.len() as int) == host
            &&& d.value[host.len() as int] == ':'
            &&& number_value(d.value.skip(host.len() + 1int), 10) == port
            &&& d.source == "portscan"@
            &&& d.confidence == (Confidence { bits: 0x3F80_0000 })
            &&& d.metadata.member("port"@) == Some(JsonView::PosInt(port as u64))
            &&& d.metadata.member("protocol"@) == Some(JsonView::Text("tcp"@))
            &&& d.metadata.member("state"@) == Some(JsonView::Text("open"@))
            &&& d.metadata.member("likely_service"@) == Some(match usual_service(port) {
                Some(s) => JsonView::Text(s),
                None => JsonView::Null,
            })
            &&& d.relations.len() == 0
        }),
{
    reveal_strlit(":");
    reveal_strlit("port");
    reveal_strlit("protocol");
    reveal_strlit("state");
    reveal_strlit("likely_service");
    assert("port"@.len() == 4 && "protocol"@.len() == 8 && "state"@.len() == 5
        && "likely_service"@.len() == 14);
    law_written_numbers_read_back(port as nat, 10);
    let d = port_draft(host, port);
    assert(d.value.take(host.len() as int) =~= host);
    assert(d.value.skip(host.len() + 1int) =~= decimal(port as nat));
}

/// The usual ports are exactly those with a usual service, in ascending order.
pub proof fn law_the_usual_ports_have_usual_services(port: u16)
    ensures
        default_ports().contains(port) <==> usual_service(port) is Some,
        default_ports().len() == 30,
        forall|i: int, j: int|
            0 <= i < j < default_ports().len() ==> default_ports()[i] < default_ports()[j],
{
    let d = default_ports();
    assert(d[0] == 21 && d[1] == 22 && d[2] == 23 && d[3] == 25 && d[4] == 53 && d[5] == 80 && d[6]
        == 110 && d[7] == 111 && d[8] == 135 && d[9] == 139 && d[10] == 143 && d[11] == 443 && d[12]
        == 445 && d[13] == 465 && d[14] == 587);
    assert(d[15] == 993 && d[16] == 995 && d[17] == 1433 && d[18] == 1723 && d[19] == 3306 && d[20]
        == 3389 && d[21] == 5432 && d[22] == 5900 && d[23] == 6379 && d[24] == 8000 && d[25] == 8080
        && d[26] == 8443 && d[27] == 8888 && d[28] == 9200 && d[29] == 27017);
}

/// The services that usually listen on the ports that are scanned.
pub proof fn law_services_listen_on_their_ports()
    ensures
        usual_service(21) == Some("ftp"@),
        usual_service(22) == Some("ssh"@),
        usual_service(23) == Some("telnet"@),
        usual_service(25) == Some("smtp"@),
        usual_service(53) == Some("dns"@),
        usual_service(80) == Some("http"@),
        usual_service(110) == Some("pop3"@),
        usual_service(111) == Some("rpcbind"@),
        usual_service(135) == Some("msrpc"@),
        usual_service(139) == Some("netbios-ssn"@),
        usual_service(143) == Some("imap"@),
        usual_service(443) == Some("https"@),
        usual_service(445) == Some("microsoft-ds"@),
        usual_service(465) == Some("smtps"@),
        usual_service(587) == Some("submission"@),
        usual_service(993) == Some("imaps"@),
        usual_service(995) == Some("pop3s"@),
        usual_service(1433) == Some("mssql"@),
        usual_service(1723) == Some("pptp"@),
        usual_service(3306) == Some("mysql"@),
        usual_service(3389) == Some("rdp"@),
        usual_service(5432) == Some("postgresql"@),
        usual_service(5900) == Some("vnc"@),
        usual_service(6379) == Some("redis"@),
        usual_service(8000) == Some("http-alt"@),
        usual_service(8080) == Some("http-alt"@),
        usual_service(8443) == Some("https-alt"@),
        usual_service(8888) == Some("http-alt"@),
        usual_service(9200) == Some("elasticsearch"@),
        usual_service(27017) == Some("mongodb"@),
{
}

/// The ports that are tried are those that the settings list, in order; what is
/// no port number does not count. Where they list none, the usual ones are
/// tried.
pub proof fn law_listed_ports_are_tried(
    config: JsonView,
    longer: JsonView,
    items: Seq<JsonView>,
    n: u64,
    other: JsonView,
)
    requires
        config.member("ports"@) == Some(JsonView::Array(items)),
        longer.member("ports"@) == Some(JsonView::Array(items.push(JsonView::PosInt(n)))),
    ensures
        n <= 65535 && ports_asked(config) != default_ports() ==> ports_asked(longer) == ports_asked(
            config,
        ).push(n as u16),
        n <= 65535 && items.len() == 0 ==> ports_asked(longer) == seq![n as u16],
        n > 65535 ==> ports_asked(longer) == ports_asked(config),
        items.len() == 0 ==> ports_asked(config) == default_ports(),
        !(other.member("ports"@) matches Some(JsonView::Array(_))) ==> ports_asked(other)
            == default_ports(),
{
    let read = |v: JsonView| port_named(v);
    let v = JsonView::PosInt(n);
    assert(items.push(v).map_values(read) =~= items.map_values(read).push(read(v)));
    lemma_somes_grow(items.map_values(read), read(v));
    if items.len() == 0 {
        assert(items.map_values(read) =~= Seq::<Option<u16>>::empty());
        assert(somes(items.map_values(read)).len() == 0);
        assert(Seq::<u16>::empty().push(n as u16) =~= seq![n as u16]);
        assert(somes(items.map_values(read)) =~= Seq::<u16>::empty());
    }
}

/// Whether a port of a host is among open ports by host.
pub open spec fn tells(groups: Seq<OpenPortsView>, host: Seq<char>, port: u16) -> bool {
    exists|g: int|
        0 <= g < groups.len() && (#[trigger] groups[g]).host == host && groups[g].ports.contains(
            port,
        )
}

/// Whether each host stands once, and its ports in ascending order.
pub open spec fn tidy(groups: Seq<OpenPortsView>) -> bool {
    &&& forall|a: int, b: int|
        0 <= a < b < groups.len() ==> (#[trigger] groups[a]).host != (#[trigger] groups[b]).host
    &&& forall|g: int, i: int, j: int|
        0 <= g < groups.len() && 0 <= i <= j < groups[g].ports.len() ==> #[trigger]
        groups[g].ports[i] <= #[trigger] groups[g].ports[j]
}

proof fn lemma_host_at(groups: Seq<OpenPortsView>, host: Seq<char>)
    ensures
        match host_at(groups, host) {
            Some(i) => 0 <= i < groups.len() && groups[i].host == host,
            None => forall|i: int| 0 <= i < groups.len() ==> (#[trigger] groups[i]).host != host,
        },
    decreases groups.len(),
{
    if groups.len() > 0 {
        lemma_host_at(groups.drop_last(), host);
        if host_at(groups, host) is None {
            assert forall|i: int| 0 <= i < groups.len() implies (#[trigger] groups[i]).host
                != host by {
                if i < groups.len() - 1 {
                    assert(groups.drop_last()[i] == groups[i]);
                }
            }
        }
    }
}

proof fn lemma_inserted(ports: Seq<u16>, port: u16, p: u16)
    ensures
        insert_sorted(ports, port).contains(p) <==> ports.contains(p) || p == port,
    decreases ports.len(),
{
    let after = insert_sorted(ports, port);
    if ports.len() == 0 || ports.last() <= port {
        assert(after == ports.push(port));
        if ports.contains(p) {
            let k = ports.index_of(p);
            assert(after[k] == p);
        }
        assert(after[ports.len() as int] == port);
        if after.contains(p) {
            let k = after.index_of(p);
            if k < ports.len() {
                assert(ports[k] == p);
            }
        }
    } else {
        let front = insert_sorted(ports.drop_last(), port);
        lemma_inserted(ports.drop_last(), port, p);
        assert(after == front.push(ports.last()));
        if ports.contains(p) {
            let k = ports.index_of(p);
            if k < ports.len() - 1 {
                assert(ports.drop_last()[k] == p);
                let m = front.index_of(p);
                assert(after[m] == p);
            } else {
                assert(after[front.len() as int] == p);
            }
        }
        if p == port {
            let m = front.index_of(p);
            assert(after[m] == p);
        }
        if after.contains(p) {
            let k = after.index_of(p);
            if k < front.len() {
                assert(front[k] == p);
                assert(front.contains(p));
                if p != port {
                    let m = ports.drop_last().index_of(p);
                    assert(ports[m] == p);
                }
            } else {
                assert(ports[ports.len() - 1] == p);
            }
        }
    }
}

/// Open ports are told by host: every port that was found stands with its host,
/// and no other. Each host stands once, with its ports in ascending order.
pub proof fn law_open_ports_are_told_by_host(
    open: Seq<(Seq<char>, u16)>,
    host: Seq<char>,
    port: u16,
)
    ensures
        tells(by_host(open), host, port) <==> open.contains((host, port)),
        tidy(by_host(open)),
    decreases open.len(),
{
    let groups = by_host(open);
    if open.len() > 0 {
        let before = by_host(open.drop_last());
        let last = open.last();
        law_open_ports_are_told_by_host(open.drop_last(), host, port);
        lemma_host_at(before, last.0);
        assert(groups == with_open(before, last.0, last.1));
        // What was found is told.
        if open.contains((host, port)) {
            let k = open.index_of((host, port));
            if k < open.len() - 1 {
                assert(open.drop_last()[k] == (host, port));
                assert(tells(before, host, port));
                let g = choose|g: int|
                    0 <= g < before.len() && (#[trigger] before[g]).host == host
                        && before[g].ports.contains(port);
                lemma_inserted(before[g].ports, last.1, port);
                assert(groups[g].host == host);
                assert(groups[g].ports.contains(port));
            } else {
                match host_at(before, host) {
                    Some(i) => {
                        lemma_inserted(before[i].ports, port, port);
                        assert(groups[i].ports.contains(port));
                    },
                    None => {
                        assert(groups[before.len() as int].ports[0] == port);
                        assert(groups[before.len() as int].host == host);
                    },
                }
            }
        }
        // What is told was found.
        if tells(groups, host, port) {
            let g = choose|g: int|
                0 <= g < groups.len() && (#[trigger] groups[g]).host == host
                    && groups[g].ports.contains(port);
            if g < before.len() && groups[g] == before[g] {
                assert(before[g].host == host);
                assert(tells(before, host, port));
                lemma_push_contains(open, (host, port));
            } else if g < before.len() {
                lemma_inserted(before[g].ports, last.1, port);
                if port == last.1 {
                    assert(open[open.len() - 1] == (host, port));
                } else {
                    assert(before[g].host == host);
                    assert(tells(before, host, port));
                    lemma_push_contains(open, (host, port));
                }
            } else {
                assert(groups[g].ports == seq![last.1]);
                assert(open[open.len() - 1] == (host, port));
            }
        }
        lemma_tidy(before, last.0, last.1);
    }
}

proof fn lemma_push_contains<T>(s: Seq<T>, x: T)
    requires
        s.len() > 0,
        s.drop_last().contains(x),
    ensures
        s.contains(x),
{
    let k = s.drop_last().index_of(x);
    assert(s[k] == x);
}

proof fn lemma_tidy(before: Seq<OpenPortsView>, host: Seq<char>, port: u16)
    requires
        tidy(before),
    ensures
        tidy(with_open(before, host, port)),
{
    let after = with_open(before, host, port);
    lemma_host_at(before, host);
    assert forall|a: int, b: int| 0 <= a < b < after.len() implies (#[trigger] after[a]).host != (
    #[trigger] after[b]).host by {
        if b < before.len() {
            assert(before[a].host != before[b].host);
        } else {
            assert(before[a].host != host);
        }
    }
    assert forall|g: int, i: int, j: int|
        0 <= g < after.len() && 0 <= i <= j < after[g].ports.len() implies #[trigger]
    after[g].ports[i] <= #[trigger] after[g].ports[j] by {
        if g < before.len() {
            let ports = before[g].ports;
            assert forall|x: int, y: int| 0 <= x <= y < ports.len() implies ports[x]
                <= ports[y] by {
                assert(before[g].ports[x] <= before[g].ports[y]);
            }
            law_ports_are_sorted(ports, port);
        }
    }
}

/// The open ports of a host lead to the ports, in order, and last to the host
/// with a link to each of them.
pub proof fn law_a_host_is_linked_to_its_ports(group: OpenPortsView, found: Seq<u128>, k: int)
    ensures
        ({
            let all = group_drafts(group, found);
            let last = all.last();
            let n = group.ports.len();
            &&& all.len() == n + 1
            &&& 0 <= k < n ==> all[k] == port_draft(group.host, group.ports[k]) && last.relations[k]
                == (RelationView { target: found[k], kind: RelationKindView::HasPort })
            &&& last.entity_type == EntityType::IpAddress
            &&& last.value == group.host
            &&& last.source == "portscan"@
            &&& last.relations.len() == n
        }),
{
}

/// Only hosts that were scanned are told of, and all of them that have open
/// ports.
pub proof fn law_only_scanned_hosts_are_told_of(
    input: Seq<EntityView>,
    groups: Seq<OpenPortsView>,
    g: OpenPortsView,
)
    ensures
        relevant(input, groups).contains(g) <==> groups.contains(g) && exists|i: int|
            0 <= i < input.len() && (#[trigger] input[i]).entity_type == EntityType::IpAddress
                && input[i].value == g.host,
{
    let keep = |g: OpenPortsView| scanned(input, g.host);
    if relevant(input, groups).contains(g) {
        let k = relevant(input, groups).index_of(g);
        groups.lemma_filter_pred(keep, k);
        groups.lemma_filter_contains_rev(keep, g);
    }
    if groups.contains(g) && scanned(input, g.host) {
        groups.lemma_filter_contains(keep, groups.index_of(g));
    }
}

/// What is told host by host is what each host leads to, one after the other.
pub proof fn law_hosts_are_told_of_one_after_the_other(
    groups: Seq<OpenPortsView>,
    group: OpenPortsView,
    found: Seq<u128>,
)
    ensures
        all_drafts(Seq::empty(), found).len() == 0,
        all_drafts(groups.push(group), found).len() == all_drafts(groups, found).len()
            + group.ports.len() + 1,
        all_drafts(groups, found).is_prefix_of(all_drafts(groups.push(group), found)),
        all_drafts(groups.push(group), found).skip(all_drafts(groups, found).len() as int)
            == group_drafts(group, found.skip(all_drafts(groups, found).len() as int)),
{
    let front = all_drafts(groups, found);
    let own = group_drafts(group, found.skip(front.len() as int));
    assert(groups.push(group).drop_last() == groups);
    assert((front + own).take(front.len() as int) =~= front);
    assert((front + own).skip(front.len() as int) =~= own);
}

/// The number of entities that open ports by host lead to.
pub open spec fn entity_count(groups: Seq<OpenPortsView>) -> int
    decreases groups.len(),
{
    if groups.len() == 0 {
        0
    } else {
        entity_count(groups.drop_last()) + groups.last().ports.len() + 1
    }
}

proof fn lemma_draft_count(groups: Seq<OpenPortsView>, found: Seq<u128>)
    ensures
        all_drafts(groups, found).len() == entity_count(groups),
    decreases groups.len(),
{
    if groups.len() > 0 {
        lemma_draft_count(groups.drop_last(), found);
    }
}

proof fn lemma_group_place(groups: Seq<OpenPortsView>, found: Seq<u128>, g: int, k: int)
    requires
        0 <= g < groups.len(),
        found.len() >= entity_count(groups),
    ensures
        ({
            let all = all_drafts(groups, found);
            let at = entity_count(groups.take(g));
            let n = groups[g].ports.len();
            &&& 0 <= at
            &&& at + n < all.len()
            &&& all[at + n].entity_type == EntityType::IpAddress
            &&& all[at + n].value == groups[g].host
            &&& 0 <= k < n ==> all[at + k] == port_draft(groups[g].host, groups[g].ports[k])
                && all[at + n].relations.len() == n && all[at + n].relations[k] == (RelationView {
                target: found[at + k],
                kind: RelationKindView::HasPort,
            })
        }),
    decreases groups.len(),
{
    let front = all_drafts(groups.drop_last(), found);
    lemma_draft_count(groups, found);
    lemma_draft_count(groups.drop_last(), found);
    let own = group_drafts(groups.last(), found.skip(front.len() as int));
    let all = all_drafts(groups, found);
    assert(all == front + own);
    if g == groups.len() - 1 {
        assert(groups.take(g) =~= groups.drop_last());
        let at = front.len() as int;
        let n = groups[g].ports.len() as int;
        law_a_host_is_linked_to_its_ports(groups.last(), found.skip(at), k);
        assert(all[at + n] == own[n]);
        if 0 <= k < n {
            assert(all[at + k] == own[k]);
            assert(found.skip(at)[k] == found[at + k]);
        }
    } else {
        assert(groups.drop_last().take(g) =~= groups.take(g));
        assert(groups.drop_last()[g] == groups[g]);
        lemma_group_place(groups.drop_last(), found, g, k);
    }
}

/// Every open port of an address that was scanned leads to an entity for that
/// port and to one for the address that is linked to it.
pub proof fn law_every_open_port_is_told(
    input: &Vec<Entity>,
    open: &Vec<(String, u16)>,
    r: Vec<Entity>,
    i: int,
    j: int,
)
    requires
        call_ensures(crate::portscan::entities, (input, open), r),
        0 <= i < open@.len(),
        0 <= j < input@.len(),
        input@[j].entity_type == EntityType::IpAddress,
        input@[j]@.value == open@[i].0@,
    ensures
        exists|a: int, b: int|
            0 <= a < r@.len() && 0 <= b < r@.len() && (#[trigger] r@[a])@.draft() == port_draft(
                open@[i].0@,
                open@[i].1,
            ) && (#[trigger] r@[b])@.entity_type == EntityType::IpAddress && r@[b]@.value
                == open@[i].0@ && r@[b]@.relations.contains(
                RelationView { target: r@[a].id, kind: RelationKindView::HasPort },
            ),
{
    let views = entity_views(input@);
    let pairs = findings(open@);
    let host = open@[i].0@;
    let port = open@[i].1;
    let groups = by_host(pairs);
    let told = relevant(views, groups);
    let found = ids(r@);
    assert(pairs[i] == (host, port));
    assert(pairs.contains((host, port)));
    law_open_ports_are_told_by_host(pairs, host, port);
    let g = choose|g: int|
        0 <= g < groups.len() && (#[trigger] groups[g]).host == host && groups[g].ports.contains(
            port,
        );
    assert(groups.contains(groups[g]));
    assert(views[j].entity_type == EntityType::IpAddress && views[j].value == host);
    law_only_scanned_hosts_are_told_of(views, groups, groups[g]);
    let t = told.index_of(groups[g]);
    let k = groups[g].ports.index_of(port);
    let n = groups[g].ports.len() as int;
    lemma_draft_count(told, found);
    assert(drafts(r@).len() == r@.len());
    lemma_group_place(told, found, t, k);
    let at = entity_count(told.take(t));
    let a = at + k;
    let b = at + n;
    assert(drafts(r@)[a] == r@[a]@.draft());
    assert(drafts(r@)[b] == r@[b]@.draft());
    assert(found[a] == r@[a].id);
    assert(r@[b]@.relations[k] == (RelationView {
        target: r@[a].id,
        kind: RelationKindView::HasPort,
    }));
    assert(r@[a]@.draft() == port_draft(host, port) && r@[b]@.entity_type == EntityType::IpAddress);
}

} // verus!
