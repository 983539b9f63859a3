//! Port scanning: which ports to try, and what the open ones say.
use vstd::prelude::*;

use crate::entity::{
    drafts, entity_views, fresh, ids, is_random_id, plain_draft, Confidence, Draft, Entity,
    EntityType, EntityView, RelationKind, RelationKindView, RelationView, FULL_CONFIDENCE,
};
use crate::json::{item_models, lemma_item_models, put_named, text_or_null, Json, JsonView};
use crate::plugin::{PluginConfig, ReconPlugin};
use crate::text::{copy_text, decimal, lemma_somes_push, same_text, somes, to_decimal};

verus! {

/// Native TCP-connect port scan. Attempts a full TCP handshake against each
/// configured port on each input IP, concurrently and with a per-connection
/// timeout, and records whichever ports actually complete a connection as open.
pub struct PortscanPlugin;

impl ReconPlugin for PortscanPlugin {
    open spec fn name_text(&self) -> Seq<char> {
        "portscan"@
    }

    open spec fn binary_text(&self) -> Seq<char> {
        "none (native TCP connect scanner)"@
    }

    open spec fn inputs(&self) -> Seq<EntityType> {
        seq![EntityType::IpAddress]
    }

    open spec fn outputs(&self) -> Seq<EntityType> {
        seq![EntityType::Port]
    }

    open spec fn native(&self) -> bool {
        true
    }

    fn name(&self) -> (r: &str) {
        "portscan"
    }

    fn required_binary(&self) -> (r: &str) {
        "none (native TCP connect scanner)"
    }

    fn input_types(&self) -> (r: Vec<EntityType>) {
        vec![EntityType::IpAddress]
    }

    fn output_types(&self) -> (r: Vec<EntityType>) {
        vec![EntityType::Port]
    }

    fn is_available(&self, found_on_path: bool) -> (r: bool) {
        true
    }
}

/// A reasonably broad "top ports" list covering common web, mail, database, and
/// remote-access services, used when the pipeline config doesn't specify its
/// own `ports` list.
pub open spec fn default_ports() -> Seq<u16> {
    seq![
        21,
        22,
        23,
        25,
        53,
        80,
        110,
        111,
        135,
        139,
        143,
        443,
        445,
        465,
        587,
        993,
        995,
        1433,
        1723,
        3306,
        3389,
        5432,
        5900,
        6379,
        8000,
        8080,
        8443,
        8888,
        9200,
        27017,
    ]
}

/// The port that a JSON value names.
pub open spec fn port_named(v: JsonView) -> Option<u16> {
    match v {
        JsonView::PosInt(n) => if n <= u16::MAX {
            Some(n as u16)
        } else {
            None
        },
        _ => None,
    }
}

/// The ports to try: those that the configuration names, or the usual ones if
/// it names none.
pub open spec fn ports_asked(config: JsonView) -> Seq<u16> {
    let named = match config.array_member("ports"@) {
        Some(items) => somes(items.map_values(|v: JsonView| port_named(v))),
        None => Seq::empty(),
    };
    if named.len() == 0 {
        default_ports()
    } else {
        named
    }
}

/// The ports to try.
pub fn ports(config: &PluginConfig) -> (r: Vec<u16>)
    ensures
        r@ == ports_asked(config@),
{
    let mut r: Vec<u16> = Vec::new();
    if let Some(items) = config.get_array("ports") {
        let ghost views = item_models(items@);
        let ghost read = |v: JsonView| port_named(v);
        proof {
            lemma_item_models(items@);
        }
        let mut i: usize = 0;
        assert(r@ == somes(views.take(0).map_values(read)));
        while i < items.len()
            invariant
                i <= items.len(),
                views == item_models(items@),
                views.len() == items.len(),
                forall|k: int| 0 <= k < items.len() ==> views[k] == (#[trigger] items@[k]).model(),
                read == (|v: JsonView| port_named(v)),
                r@ == somes(views.take(i as int).map_values(read)),
            decreases items.len() - i,
        {
            proof {
                assert(views.take(i + 1) == views.take(i as int).push(items@[i as int].model()));
                lemma_somes_push(views.take(i as int), items@[i as int].model(), read);
            }
            match items[i].as_u64() {
                Some(n) => {
                    if n <= 0xFFFF {
                        r.push(n as u16);
                    }
                },
                None => {},
            }
            i += 1;
        }
        assert(views.take(i as int) == views);
    }
    if r.len() == 0 {
        r =
        vec![
            21,
            22,
            23,
            25,
            53,
            80,
            110,
            111,
            135,
            139,
            143,
            443,
            445,
            465,
            587,
            993,
            995,
            1433,
            1723,
            3306,
            3389,
            5432,
            5900,
            6379,
            8000,
            8080,
            8443,
            8888,
            9200,
            27017,
        ];
        assert(r@ == default_ports());
    }
    r
}

/// How long to wait for a connection where the configuration does not say.
pub const DEFAULT_TIMEOUT_MS: u64 = 800;

/// How many connections are tried at the same time where the configuration
/// does not say.
pub const DEFAULT_CONCURRENCY: u64 = 200;

/// How long to wait for a connection.
pub fn timeout_ms(config: &PluginConfig) -> (r: u64)
    ensures
        r == match config@.number_member("timeout_ms"@) {
            Some(n) => n,
            None => DEFAULT_TIMEOUT_MS,
        },
{
    match config.get_u64("timeout_ms") {
        Some(n) => n,
        None => DEFAULT_TIMEOUT_MS,
    }
}

/// How many connections are tried at the same time: at least one.
pub fn concurrency(config: &PluginConfig) -> (r: u64)
    ensures
        r == match config@.number_member("concurrency"@) {
            Some(0) => 1,
            Some(n) => n,
            None => DEFAULT_CONCURRENCY,
        },
{
    match config.get_u64("concurrency") {
        Some(n) => if n == 0 {
            1
        } else {
            n
        },
        None => DEFAULT_CONCURRENCY,
    }
}

/// The connections to try to one host, port by port.
pub open spec fn host_attempts(host: int, ports: Seq<u16>) -> Seq<(int, u16)> {
    ports.map_values(|p: u16| (host, p))
}

/// The connections to try to the first `n` entities, host by host: those that
/// are addresses and can be used as such.
pub open spec fn attempts_for(
    input: Seq<EntityView>,
    usable: Seq<bool>,
    ports: Seq<u16>,
    n: int,
) -> Seq<(int, u16)>
    decreases n,
{
    if n <= 0 {
        Seq::empty()
    } else {
        let front = attempts_for(input, usable, ports, n - 1);
        if input[n - 1].entity_type == EntityType::IpAddress && usable[n - 1] {
            front + host_attempts(n - 1, ports)
        } else {
            front
        }
    }
}

/// A list of connections, by the positions of their hosts.
pub open spec fn attempt_views(v: Seq<(usize, u16)>) -> Seq<(int, u16)> {
    v.map_values(|a: (usize, u16)| (a.0 as int, a.1))
}

/// The connections to try, given for each entity whether its value can be used
/// as an address.
pub fn attempts(input: &Vec<Entity>, usable: &Vec<bool>, ports: &Vec<u16>) -> (r: Vec<(usize, u16)>)
    requires
        usable@.len() == input@.len(),
    ensures
        attempt_views(r@) == attempts_for(
            entity_views(input@),
            usable@,
            ports@,
            input@.len() as int,
        ),
{
    let ghost views = entity_views(input@);
    let mut r: Vec<(usize, u16)> = Vec::new();
    let mut i: usize = 0;
    assert(attempt_views(r@) == attempts_for(views, usable@, ports@, 0));
    while i < input.len()
        invariant
            i <= input.len(),
            usable@.len() == input@.len(),
            views == entity_views(input@),
            attempt_views(r@) == attempts_for(views, usable@, ports@, i as int),
        decreases input.len() - i,
    {
        assert(views[i as int] == input@[i as int]@);
        if input[i].entity_type == EntityType::IpAddress && usable[i] {
            let ghost front = attempt_views(r@);
            let ghost here = host_attempts(i as int, ports@);
            let mut k: usize = 0;
            assert(front + here.take(0) == front);
            while k < ports.len()
                invariant
                    k <= ports.len(),
                    here == host_attempts(i as int, ports@),
                    attempt_views(r@) == front + here.take(k as int),
                decreases ports.len() - k,
            {
                let ghost before = r@;
                r.push((i, ports[k]));
                proof {
                    assert(here.take(k + 1) == here.take(k as int).push(here[k as int]));
                    assert(attempt_views(r@) == attempt_views(before).push(here[k as int]));
                    assert(front + here.take(k + 1) == (front + here.take(k as int)).push(
                        here[k as int],
                    ));
                }
                k += 1;
            }
            assert(here.take(k as int) == here);
        }
        i += 1;
    }
    r
}

/// A connection is tried exactly if its host is a usable address among the
/// entities and its port is among the ports.
pub proof fn law_every_usable_host_is_tried_on_every_port(
    input: Seq<EntityView>,
    usable: Seq<bool>,
    ports: Seq<u16>,
    n: int,
    host: int,
    port: u16,
)
    requires
        0 <= n <= input.len(),
    ensures
        attempts_for(input, usable, ports, n).contains((host, port)) <==> 0 <= host < n
            && input[host].entity_type == EntityType::IpAddress && usable[host] && ports.contains(
            port,
        ),
    decreases n,
{
    if n > 0 {
        law_every_usable_host_is_tried_on_every_port(input, usable, ports, n - 1, host, port);
        let front = attempts_for(input, usable, ports, n - 1);
        let here = host_attempts(n - 1, ports);
        let all = attempts_for(input, usable, ports, n);
        let wanted = (host, port);
        if input[n - 1].entity_type == EntityType::IpAddress && usable[n - 1] {
            if front.contains(wanted) {
                assert(all[front.index_of(wanted)] == wanted);
            }
            if host == n - 1 && ports.contains(port) {
                assert(all[front.len() + ports.index_of(port)] == wanted);
            }
            if all.contains(wanted) {
                let at = all.index_of(wanted);
                if at < front.len() {
                    assert(front[at] == wanted);
                } else {
                    assert(here[at - front.len()] == wanted);
                    assert(ports[at - front.len()] == port);
                }
            }
        }
    }
}

/// The service that usually listens on a port.
pub open spec fn usual_service(port: u16) -> Option<Seq<char>> {
    match port {
        21 => Some("ftp"@),
        22 => Some("ssh"@),
        23 => Some("telnet"@),
        25 => Some("smtp"@),
        53 => Some("dns"@),
        80 => Some("http"@),
        110 => Some("pop3"@),
        111 => Some("rpcbind"@),
        135 => Some("msrpc"@),
        139 => Some("netbios-ssn"@),
        143 => Some("imap"@),
        443 => Some("https"@),
        445 => Some("microsoft-ds"@),
        465 => Some("smtps"@),
        587 => Some("submission"@),
        993 => Some("imaps"@),
        995 => Some("pop3s"@),
        1433 => Some("mssql"@),
        1723 => Some("pptp"@),
        3306 => Some("mysql"@),
        3389 => Some("rdp"@),
        5432 => Some("postgresql"@),
        5900 => Some("vnc"@),
        6379 => Some("redis"@),
        8000 => Some("http-alt"@),
        8080 => Some("http-alt"@),
        8888 => Some("http-alt"@),
        8443 => Some("https-alt"@),
        9200 => Some("elasticsearch"@),
        27017 => Some("mongodb"@),
        _ => None,
    }
}

pub fn likely_service(port: u16) -> (r: Option<&'static str>)
    ensures
        match r {
            Some(s) => usual_service(port) == Some(s@),
            None => usual_service(port) is None,
        },
{
    match port {
        21 => Some("ftp"),
        22 => Some("ssh"),
        23 => Some("telnet"),
        25 => Some("smtp"),
        53 => Some("dns"),
        80 => Some("http"),
        110 => Some("pop3"),
        111 => Some("rpcbind"),
        135 => Some("msrpc"),
        139 => Some("netbios-ssn"),
        143 => Some("imap"),
        443 => Some("https"),
        445 => Some("microsoft-ds"),
        465 => Some("smtps"),
        587 => Some("submission"),
        993 => Some("imaps"),
        995 => Some("pop3s"),
        1433 => Some("mssql"),
        1723 => Some("pptp"),
        3306 => Some("mysql"),
        3389 => Some("rdp"),
        5432 => Some("postgresql"),
        5900 => Some("vnc"),
        6379 => Some("redis"),
        8000 => Some("http-alt"),
        8080 => Some("http-alt"),
        8888 => Some("http-alt"),
        8443 => Some("https-alt"),
        9200 => Some("elasticsearch"),
        27017 => Some("mongodb"),
        _ => None,
    }
}

/// Ports in ascending order with one more among them.
pub open spec fn insert_sorted(ports: Seq<u16>, port: u16) -> Seq<u16>
    decreases ports.len(),
{
    if ports.len() == 0 || ports.last() <= port {
        ports.push(port)
    } else {
        insert_sorted(ports.drop_last(), port).push(ports.last())
    }
}

/// The open ports of one host.
pub struct OpenPorts {
    pub host: String,
    pub ports: Vec<u16>,
}

/// The mathematical model of the open ports of one host.
pub struct OpenPortsView {
    pub host: Seq<char>,
    pub ports: Seq<u16>,
}

impl View for OpenPorts {
    type V = OpenPortsView;

    open spec fn view(&self) -> OpenPortsView {
        OpenPortsView { host: self.host@, ports: self.ports@ }
    }
}

/// The models of the open ports of several hosts.
pub open spec fn open_views(v: Seq<OpenPorts>) -> Seq<OpenPortsView> {
    v.map_values(|o: OpenPorts| o@)
}

/// The position of a host among those with open ports.
pub open spec fn host_at(groups: Seq<OpenPortsView>, host: Seq<char>) -> Option<int>
    decreases groups.len(),
{
    if groups.len() == 0 {
        None
    } else if groups.last().host == host {
        Some(groups.len() - 1)
    } else {
        host_at(groups.drop_last(), host)
    }
}

/// The open ports by host once one more is found.
pub open spec fn with_open(groups: Seq<OpenPortsView>, host: Seq<char>, port: u16) -> Seq<
    OpenPortsView,
> {
    match host_at(groups, host) {
        Some(i) => groups.update(
            i,
            OpenPortsView { host, ports: insert_sorted(groups[i].ports, port) },
        ),
        None => groups.push(OpenPortsView { host, ports: seq![port] }),
    }
}

/// The open ports by host, the hosts in the order in which a first open port
/// was found.
pub open spec fn by_host(open: Seq<(Seq<char>, u16)>) -> Seq<OpenPortsView>
    decreases open.len(),
{
    if open.len() == 0 {
        Seq::empty()
    } else {
        with_open(by_host(open.drop_last()), open.last().0, open.last().1)
    }
}

/// The open ports that were found, with their hosts.
pub open spec fn findings(open: Seq<(String, u16)>) -> Seq<(Seq<char>, u16)> {
    open.map_values(|o: (String, u16)| (o.0@, o.1))
}

/// Puts a port where it belongs among ports in ascending order.
fn place(ports: &mut Vec<u16>, port: u16)
    ensures
        final(ports)@ == insert_sorted(old(ports)@, port),
{
    let ghost before = ports@;
    let mut i: usize = ports.len();
    assert(before.take(i as int) == before);
    assert(insert_sorted(before, port) + before.skip(i as int) == insert_sorted(before, port));
    while i > 0 && ports[i - 1] > port
        invariant
            i <= ports@.len(),
            ports@ == before,
            insert_sorted(before, port) == insert_sorted(before.take(i as int), port)
                + before.skip(i as int),
        decreases i,
    {
        proof {
            let front = before.take(i as int);
            assert(front.last() == before[i - 1]);
            assert(front.drop_last() == before.take(i - 1));
            assert(insert_sorted(front.drop_last(), port).push(front.last()) + before.skip(
                i as int,
            ) == insert_sorted(before.take(i - 1), port) + before.skip(i - 1));
        }
        i -= 1;
    }
    ports.insert(i, port);
    assert(before.take(i as int).len() == 0 || before.take(i as int).last() == before[i - 1]);
    assert(ports@ == before.take(i as int).push(port) + before.skip(i as int));
}

/// Groups the open ports by host.
pub fn group_by_host(open: &Vec<(String, u16)>) -> (r: Vec<OpenPorts>)
    ensures
        open_views(r@) == by_host(findings(open@)),
{
    let ghost all = findings(open@);
    let mut r: Vec<OpenPorts> = Vec::new();
    let mut i: usize = 0;
    assert(open_views(r@) == by_host(all.take(0)));
    while i < open.len()
        invariant
            i <= open.len(),
            all == findings(open@),
            open_views(r@) == by_host(all.take(i as int)),
        decreases open.len() - i,
    {
        let host = &open[i].0;
        let port: u16 = open[i].1;
        proof {
            assert(all.take(i + 1).drop_last() == all.take(i as int));
            assert(all.take(i + 1).last() == (host@, port));
        }
        add_open(&mut r, host, port);
        i += 1;
    }
    assert(all.take(i as int) == all);
    r
}

fn add_open(groups: &mut Vec<OpenPorts>, host: &String, port: u16)
    ensures
        open_views(final(groups)@) == with_open(open_views(old(groups)@), host@, port),
{
    let ghost before = groups@;
    let ghost views = open_views(before);
    let mut i: usize = groups.len();
    assert(views.take(before.len() as int) == views);
    while i > 0
        invariant
            i <= groups@.len(),
            before == old(groups)@,
            groups@ == before,
            views == open_views(before),
            host_at(views, host@) == host_at(views.take(i as int), host@),
        decreases i,
    {
        proof {
            let front = views.take(i as int);
            assert(front.last() == groups@[i - 1]@);
            assert(front.drop_last() == views.take(i - 1));
        }
        if same_text(groups[i - 1].host.as_str(), host.as_str()) {
            assert(views[i - 1] == before[i - 1]@);
            assert(host_at(views, host@) == Some(i - 1));
            let mut ports = copy_ports(&groups[i - 1].ports);
            place(&mut ports, port);
            let g = OpenPorts { host: host.clone(), ports };
            groups.set(i - 1, g);
            assert(open_views(groups@) == views.update(i - 1, g@));
            return ;
        }
        i -= 1;
    }
    let g = OpenPorts { host: host.clone(), ports: vec![port] };
    assert(g.ports@ == seq![port]);
    groups.push(g);
    assert(open_views(groups@) == views.push(g@));
}

fn copy_ports(v: &Vec<u16>) -> (r: Vec<u16>)
    ensures
        r@ == v@,
{
    let mut r: Vec<u16> = Vec::new();
    let mut i: usize = 0;
    while i < v.len()
        invariant
            i <= v.len(),
            r@ == v@.take(i as int),
        decreases v.len() - i,
    {
        r.push(v[i]);
        assert(v@.take(i + 1) == v@.take(i as int).push(v@[i as int]));
        i += 1;
    }
    assert(v@.take(i as int) == v@);
    r
}

/// What an open port says.
pub open spec fn port_draft(host: Seq<char>, port: u16) -> Draft {
    Draft {
        entity_type: EntityType::Port,
        value: host + ":"@ + decimal(port as nat),
        source: "portscan"@,
        confidence: Confidence { bits: FULL_CONFIDENCE },
        metadata: JsonView::Object(
            map![
                "port"@ => JsonView::PosInt(port as u64),
                "protocol"@ => JsonView::Text("tcp"@),
                "state"@ => JsonView::Text("open"@),
                "likely_service"@ => text_or_null(usual_service(port)),
            ],
        ),
        relations: Seq::empty(),
    }
}

fn port_entity(host: &str, port: u16) -> (r: Entity)
    ensures
        r@.draft() == port_draft(host@, port),
        is_random_id(r.id),
{
    let mut value = copy_text(host);
    value.append(":");
    value.append(to_decimal(port as u64).as_str());
    let mut members: Vec<(String, Json)> = Vec::new();
    put_named(&mut members, "port", Json::PosInt(port as u64));
    put_named(&mut members, "protocol", Json::Text(copy_text("tcp")));
    put_named(&mut members, "state", Json::Text(copy_text("open")));
    let service = match likely_service(port) {
        Some(s) => Json::Text(copy_text(s)),
        None => Json::Null,
    };
    put_named(&mut members, "likely_service", service);
    let r = Entity::new(EntityType::Port, value.as_str(), "portscan").with_metadata(
        Json::Object(members),
    );
    assert(r@.metadata == port_draft(host@, port).metadata);
    r
}

/// What the open ports of a host say: the ports, then the host again with links
/// to them; they have the given ids.
pub open spec fn group_drafts(group: OpenPortsView, found: Seq<u128>) -> Seq<Draft> {
    group.ports.map_values(|p: u16| port_draft(group.host, p)).push(
        Draft {
            relations: Seq::new(
                group.ports.len(),
                |k: int| RelationView { target: found[k], kind: RelationKindView::HasPort },
            ),
            ..plain_draft(EntityType::IpAddress, group.host, "portscan"@)
        },
    )
}

fn group_entities(group: &OpenPorts) -> (r: Vec<Entity>)
    ensures
        drafts(r@) == group_drafts(group@, ids(r@)),
        fresh(r@),
{
    let mut r: Vec<Entity> = Vec::new();
    let mut k: usize = 0;
    while k < group.ports.len()
        invariant
            k <= group.ports.len(),
            r@.len() == k,
            fresh(r@),
            forall|m: int|
                0 <= m < k ==> (#[trigger] r@[m])@.draft() == port_draft(
                    group.host@,
                    group.ports@[m],
                ),
        decreases group.ports.len() - k,
    {
        r.push(port_entity(group.host.as_str(), group.ports[k]));
        k += 1;
    }
    let mut updated = Entity::new(EntityType::IpAddress, group.host.as_str(), "portscan");
    let ghost plain = updated@;
    let mut t: usize = 0;
    while t < r.len()
        invariant
            t <= r.len(),
            is_random_id(updated.id),
            updated@ == (EntityView { relations: updated@.relations, ..plain }),
            updated@.relations.len() == t,
            forall|m: int|
                0 <= m < t ==> (#[trigger] updated@.relations[m]) == (RelationView {
                    target: r@[m].id,
                    kind: RelationKindView::HasPort,
                }),
        decreases r.len() - t,
    {
        updated = updated.with_relation(r[t].id, RelationKind::HasPort);
        t += 1;
    }
    let ghost found = r@;
    r.push(updated);
    proof {
        let want = group_drafts(group@, ids(r@));
        assert(drafts(r@).len() == want.len());
        assert forall|m: int| 0 <= m < want.len() implies drafts(r@)[m] == want[m] by {
            if m < found.len() {
                assert(r@[m] == found[m]);
            } else {
                assert(r@[m] == updated);
                assert(updated@.relations == want[m].relations);
            }
        }
        assert(drafts(r@) =~= want);
    }
    r
}

/// What the open ports of all hosts say, host by host.
pub open spec fn all_drafts(groups: Seq<OpenPortsView>, found: Seq<u128>) -> Seq<Draft>
    decreases groups.len(),
{
    if groups.len() == 0 {
        Seq::empty()
    } else {
        let front = all_drafts(groups.drop_last(), found);
        front + group_drafts(groups.last(), found.skip(front.len() as int))
    }
}

/// The hosts among the entities that were scanned.
pub open spec fn scanned(input: Seq<EntityView>, host: Seq<char>) -> bool {
    exists|i: int|
        0 <= i < input.len() && (#[trigger] input[i]).entity_type == EntityType::IpAddress
            && input[i].value == host
}

fn is_scanned(input: &Vec<Entity>, host: &str) -> (r: bool)
    ensures
        r == scanned(entity_views(input@), host@),
{
    let ghost views = entity_views(input@);
    let mut i: usize = 0;
    while i < input.len()
        invariant
            i <= input.len(),
            views == entity_views(input@),
            forall|k: int|
                0 <= k < i ==> !((#[trigger] views[k]).entity_type == EntityType::IpAddress
                    && views[k].value == host@),
        decreases input.len() - i,
    {
        assert(views[i as int] == input@[i as int]@);
        if input[i].entity_type == EntityType::IpAddress && same_text(
            input[i].value.as_str(),
            host,
        ) {
            return true;
        }
        i += 1;
    }
    false
}

/// The open ports of the hosts that were scanned.
pub open spec fn relevant(input: Seq<EntityView>, groups: Seq<OpenPortsView>) -> Seq<
    OpenPortsView,
> {
    groups.filter(|g: OpenPortsView| scanned(input, g.host))
}

proof fn lemma_all_drafts_agree(groups: Seq<OpenPortsView>, a: Seq<u128>, b: Seq<u128>)
    requires
        all_drafts(groups, a).len() <= a.len(),
        a.is_prefix_of(b),
    ensures
        all_drafts(groups, a) == all_drafts(groups, b),
    decreases groups.len(),
{
    if groups.len() > 0 {
        let front = groups.drop_last();
        lemma_all_drafts_agree(front, a, b);
        let n = all_drafts(front, a).len() as int;
        let last = groups.last();
        assert forall|k: int| 0 <= k < last.ports.len() implies a.skip(n)[k] == b.skip(n)[k] by {
            assert(group_drafts(last, a.skip(n)).len() == last.ports.len() + 1);
            assert(b.take(a.len() as int)[n + k] == b[n + k]);
        }
        assert(group_drafts(last, a.skip(n)).last().relations =~= group_drafts(
            last,
            b.skip(n),
        ).last().relations);
        assert(group_drafts(last, a.skip(n)) =~= group_drafts(last, b.skip(n)));
    }
}

/// The entities for the open ports that were found among the given entities.
pub fn entities(input: &Vec<Entity>, open: &Vec<(String, u16)>) -> (r: Vec<Entity>)
    ensures
        drafts(r@) == all_drafts(
            relevant(entity_views(input@), by_host(findings(open@))),
            ids(r@),
        ),
        fresh(r@),
{
    let groups = group_by_host(open);
    let ghost views = open_views(groups@);
    let ghost known = |g: OpenPortsView| scanned(entity_views(input@), g.host);
    let mut r: Vec<Entity> = Vec::new();
    let mut i: usize = 0;
    proof {
        reveal(Seq::filter);
        assert(drafts(r@) == all_drafts(views.take(0).filter(known), ids(r@)));
    }
    while i < groups.len()
        invariant
            i <= groups.len(),
            views == open_views(groups@),
            known == (|g: OpenPortsView| scanned(entity_views(input@), g.host)),
            drafts(r@) == all_drafts(views.take(i as int).filter(known), ids(r@)),
            fresh(r@),
        decreases groups.len() - i,
    {
        let group = &groups[i];
        let ghost before = r@;
        let ghost kept = views.take(i as int).filter(known);
        proof {
            reveal(Seq::filter);
            assert(views.take(i + 1).drop_last() == views.take(i as int));
            assert(views.take(i + 1).last() == group@);
        }
        if is_scanned(input, group.host.as_str()) {
            let mut more = group_entities(group);
            let ghost added = more@;
            r.append(&mut more);
            proof {
                assert(known(group@));
                assert(views.take(i + 1).filter(known) == kept.push(group@));
                assert(kept.push(group@).drop_last() == kept);
                assert(r@ == before + added);
                assert(drafts(r@) == drafts(before) + drafts(added));
                assert(ids(before).len() == drafts(before).len());
                assert(ids(r@).take(ids(before).len() as int) == ids(before));
                assert(ids(before).is_prefix_of(ids(r@)));
                lemma_all_drafts_agree(kept, ids(before), ids(r@));
                assert(ids(r@).skip(before.len() as int) == ids(added));
                assert forall|k: int| 0 <= k < r@.len() implies is_random_id(
                    (#[trigger] r@[k]).id,
                ) by {
                    if k < before.len() {
                        assert(r@[k] == before[k]);
                    } else {
                        assert(r@[k] == added[k - before.len()]);
                    }
                }
            }
        }
        i += 1;
    }
    assert(views.take(i as int) == views);
    r
}

/// Ports stay in ascending order, and none is lost or made up.
pub proof fn law_ports_are_sorted(ports: Seq<u16>, port: u16)
    requires
        forall|i: int, j: int| 0 <= i <= j < ports.len() ==> ports[i] <= ports[j],
    ensures
        forall|i: int, j: int|
            0 <= i <= j < insert_sorted(ports, port).len() ==> insert_sorted(ports, port)[i]
                <= insert_sorted(ports, port)[j],
        insert_sorted(ports, port).to_multiset() == ports.to_multiset().insert(port),
    decreases ports.len(),
{
    broadcast use vstd::seq_lib::group_to_multiset_ensures;

    if ports.len() > 0 && ports.last() > port {
        let front = ports.drop_last();
        let rest = insert_sorted(front, port);
        law_ports_are_sorted(front, port);
        assert(ports == front.push(ports.last()));
        assert forall|i: int| 0 <= i < rest.len() implies rest[i] <= ports.last() by {
            assert(rest.to_multiset().count(rest[i]) > 0);
            if rest[i] != port {
                assert(front.to_multiset().count(rest[i]) > 0);
                assert(front.contains(rest[i]));
                let k = front.index_of(rest[i]);
                assert(ports[k] <= ports[ports.len() - 1]);
            }
        }
        assert(rest.push(ports.last()).to_multiset() =~= ports.to_multiset().insert(port));
    }
}

} // verus!
