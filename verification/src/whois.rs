//! WHOIS lookups: which server to ask, where it refers to, and what its answer
//! says.
use vstd::prelude::*;

use crate::entity::{
    drafts, fresh, ids, plain_draft, Confidence, Draft, Entity, EntityType,
    EntityView, RelationKind, RelationKindView, RelationView, FULL_CONFIDENCE,
};
use crate::error::{plugin_failure, Error, ErrorView};
use crate::json::{json_text_or_null, opt_text, put_named, text_or_null, Json, JsonView};
use crate::octets::{lossy_text, text_of};
use crate::pipeline::lemma_some_in_prefix;
use crate::plugin::ReconPlugin;
use crate::text::{
    begins_with, char_lists, chars_of, copy_text, drop_char, drop_while, first_some, lines, lower,
    same_text, skip_char, skip_prefix_copies, skip_prefixes, skip_while, slice_chars, split_lines,
    string_of, to_lower, trim, trim_chars,
};

verus! {

/// The server to ask about domains first.
pub const IANA_WHOIS: &'static str = "whois.iana.org";

/// The server to ask about addresses first.
pub const ARIN_WHOIS: &'static str = "whois.arin.net";

/// How many referrals are followed.
pub const MAX_REFERRALS: u8 = 3;

/// Native WHOIS lookups over raw TCP (port 43). Follows referrals (e.g. IANA to
/// the registry's own server) up to a small hop limit, same as the real
/// protocol expects clients to do.
pub struct WhoisPlugin;

impl ReconPlugin for WhoisPlugin {
    open spec fn name_text(&self) -> Seq<char> {
        "whois"@
    }

    open spec fn binary_text(&self) -> Seq<char> {
        "none (native TCP client)"@
    }

    open spec fn inputs(&self) -> Seq<EntityType> {
        seq![EntityType::Domain, EntityType::IpAddress]
    }

    open spec fn outputs(&self) -> Seq<EntityType> {
        seq![EntityType::Domain, EntityType::IpAddress, EntityType::Asn, EntityType::Cidr]
    }

    open spec fn native(&self) -> bool {
        true
    }

    fn name(&self) -> (r: &str) {
        "whois"
    }

    fn required_binary(&self) -> (r: &str) {
        "none (native TCP client)"
    }

    fn input_types(&self) -> (r: Vec<EntityType>) {
        vec![EntityType::Domain, EntityType::IpAddress]
    }

    fn output_types(&self) -> (r: Vec<EntityType>) {
        vec![EntityType::Domain, EntityType::IpAddress, EntityType::Asn, EntityType::Cidr]
    }

    fn is_available(&self, found_on_path: bool) -> (r: bool) {
        true
    }
}

/// The kinds of entities that are looked up.
pub fn targets() -> (r: Vec<EntityType>)
    ensures
        r@ == seq![EntityType::Domain, EntityType::Subdomain, EntityType::IpAddress],
{
    vec![EntityType::Domain, EntityType::Subdomain, EntityType::IpAddress]
}

/// The labels in front of a referral.
pub open spec fn referral_labels() -> Seq<Seq<char>> {
    seq!["refer:"@, "referralserver:"@, "whois:"@]
}

/// The server that a line refers to by a label, if it has that label.
pub open spec fn referral_behind(line: Seq<char>, label: Seq<char>) -> Option<Seq<char>> {
    let server = trim(
        drop_while(
            skip_prefixes(trim(line.skip(label.len() as int)), "whois://"@),
            |c: char| c == '/',
        ),
    );
    if label.is_prefix_of(lower(line)) && server.len() > 0 {
        Some(server)
    } else {
        None
    }
}

/// The server that a line refers to.
pub open spec fn referral_in(line: Seq<char>) -> Option<Seq<char>> {
    first_some(referral_labels().map_values(|l: Seq<char>| referral_behind(line, l)))
}

/// The first server that an answer refers to.
pub open spec fn referral(text: Seq<char>) -> Option<Seq<char>> {
    first_some(lines(text).map_values(|l: Seq<char>| referral_in(l)))
}

fn read_referral(line: &Vec<char>, lowered: &Vec<char>, label: &str) -> (r: Option<String>)
    requires
        lowered@ == lower(line@),
    ensures
        opt_text(r) == referral_behind(line@, label@),
{
    let l = chars_of(label);
    if !begins_with(lowered, &l) {
        return None;
    }
    let rest = slice_chars(line, l.len(), line.len());
    assert(rest@ == line@.skip(l@.len() as int));
    let value = trim_chars(&rest);
    let host = skip_prefix_copies(&value, &chars_of("whois://"));
    let server = trim_chars(&drop_char(&host, '/'));
    if server.len() > 0 {
        Some(string_of(&server))
    } else {
        None
    }
}

/// Looks for a `refer:` / `ReferralServer:` / `whois:` line pointing to a more
/// authoritative server, as IANA and some RIR responses do.
pub fn find_referral(text: &str) -> (r: Option<String>)
    ensures
        opt_text(r) == referral(text@),
{
    let all = split_lines(&chars_of(text));
    let ghost views = char_lists(all@);
    let ghost found = views.map_values(|l: Seq<char>| referral_in(l));
    let mut i: usize = 0;
    assert(first_some(found.take(0)) is None);
    while i < all.len()
        invariant
            i <= all.len(),
            views == char_lists(all@),
            views == lines(text@),
            found == views.map_values(|l: Seq<char>| referral_in(l)),
            first_some(found.take(i as int)) is None,
        decreases all.len() - i,
    {
        let line = &all[i];
        let lowered = to_lower(line);
        let a = read_referral(line, &lowered, "refer:");
        let b = read_referral(line, &lowered, "referralserver:");
        let c = read_referral(line, &lowered, "whois:");
        proof {
            assert(found.take(i + 1).drop_last() == found.take(i as int));
            assert(found.take(i + 1).last() == referral_in(line@));
            let here = referral_labels().map_values(|l: Seq<char>| referral_behind(line@, l));
            assert(here == seq![opt_text(a), opt_text(b), opt_text(c)]);
            reveal_with_fuel(first_some, 4);
            assert(here.drop_last() == seq![opt_text(a), opt_text(b)]);
            assert(here.drop_last().drop_last() == seq![opt_text(a)]);
            assert(here.drop_last().drop_last().drop_last() == Seq::<Option<Seq<char>>>::empty());
        }
        let server = if a.is_some() {
            a
        } else if b.is_some() {
            b
        } else {
            c
        };
        if server.is_some() {
            proof {
                assert(first_some(found.take(i + 1)) == opt_text(server));
                lemma_some_in_prefix(found, i + 1);
            }
            return server;
        }
        i += 1;
    }
    assert(found.take(i as int) == found);
    None
}

/// The value behind a label, if a line has that label in whatever case and the
/// value is not empty.
pub open spec fn value_behind(line: Seq<char>, label: Seq<char>) -> Option<Seq<char>> {
    let value = trim(skip_while(trim(line.skip(label.len() as int)), |c: char| c == ':'));
    if lower(label).is_prefix_of(lower(line)) && value.len() > 0 {
        Some(value)
    } else {
        None
    }
}

/// The value that a line gives for the first of the labels that it has.
pub open spec fn value_in(line: Seq<char>, labels: Seq<Seq<char>>) -> Option<Seq<char>> {
    first_some(labels.map_values(|l: Seq<char>| value_behind(line, l)))
}

/// The first value that an answer gives for any of the labels.
pub open spec fn field(text: Seq<char>, labels: Seq<Seq<char>>) -> Option<Seq<char>> {
    first_some(lines(text).map_values(|l: Seq<char>| value_in(l, labels)))
}

/// The texts of a list of labels.
pub open spec fn label_texts(keys: Seq<&str>) -> Seq<Seq<char>> {
    keys.map_values(|k: &str| k@)
}

fn read_value(line: &Vec<char>, keys: &[&str]) -> (r: Option<String>)
    ensures
        opt_text(r) == value_in(line@, label_texts(keys@)),
{
    let lowered = to_lower(line);
    let ghost labels = label_texts(keys@);
    let ghost found = labels.map_values(|l: Seq<char>| value_behind(line@, l));
    let mut i: usize = 0;
    assert(first_some(found.take(0)) is None);
    while i < keys.len()
        invariant
            i <= keys.len(),
            lowered@ == lower(line@),
            labels == label_texts(keys@),
            found == labels.map_values(|l: Seq<char>| value_behind(line@, l)),
            first_some(found.take(i as int)) is None,
        decreases keys.len() - i,
    {
        let key = chars_of(keys[i]);
        proof {
            assert(labels[i as int] == key@);
            assert(found.take(i + 1).drop_last() == found.take(i as int));
            assert(found.take(i + 1).last() == value_behind(line@, key@));
        }
        if begins_with(&lowered, &to_lower(&key)) {
            assert(lower(key@).len() == key@.len());
            let rest = slice_chars(line, key.len(), line.len());
            assert(rest@ == line@.skip(key@.len() as int));
            let value = trim_chars(&skip_char(&trim_chars(&rest), ':'));
            if value.len() > 0 {
                proof {
                    assert(first_some(found.take(i + 1)) == Some(value@));
                    lemma_some_in_prefix(found, i + 1);
                }
                return Some(string_of(&value));
            }
        }
        i += 1;
    }
    assert(found.take(i as int) == found);
    None
}

/// Case-insensitive "does this line start with one of these field labels"
/// extractor. WHOIS output has no consistent schema across registries, so this
/// is deliberately loose rather than a full parser.
pub fn extract_field(text: &str, keys: &[&str]) -> (r: Option<String>)
    ensures
        opt_text(r) == field(text@, label_texts(keys@)),
{
    let all = split_lines(&chars_of(text));
    let ghost views = char_lists(all@);
    let ghost labels = label_texts(keys@);
    let ghost found = views.map_values(|l: Seq<char>| value_in(l, labels));
    let mut i: usize = 0;
    assert(first_some(found.take(0)) is None);
    while i < all.len()
        invariant
            i <= all.len(),
            views == char_lists(all@),
            views == lines(text@),
            labels == label_texts(keys@),
            found == views.map_values(|l: Seq<char>| value_in(l, labels)),
            first_some(found.take(i as int)) is None,
        decreases all.len() - i,
    {
        let value = read_value(&all[i], keys);
        proof {
            assert(found.take(i + 1).drop_last() == found.take(i as int));
            assert(found.take(i + 1).last() == value_in(all@[i as int]@, labels));
        }
        if value.is_some() {
            proof {
                assert(first_some(found.take(i + 1)) == opt_text(value));
                lemma_some_in_prefix(found, i + 1);
            }
            return value;
        }
        i += 1;
    }
    assert(found.take(i as int) == found);
    None
}

/// A lookup under way: the server to ask, and how many were asked before.
pub struct Lookup {
    pub server: String,
    pub asked: u8,
}

/// The server that is asked first.
pub open spec fn first_server(entity_type: EntityType) -> Seq<char> {
    if entity_type == EntityType::IpAddress {
        ARIN_WHOIS@
    } else {
        IANA_WHOIS@
    }
}

/// The server to ask after another, if its answer refers to one: not itself,
/// and not after more referrals than are followed.
pub open spec fn server_after(server: Seq<char>, asked: int, answer: Seq<char>) -> Option<
    Seq<char>,
> {
    match referral(answer) {
        Some(next) if next != server && asked < MAX_REFERRALS => Some(next),
        _ => None,
    }
}

impl Lookup {
    pub fn new(entity: &Entity) -> (r: Self)
        ensures
            r.server@ == first_server(entity.entity_type),
            r.asked == 0,
    {
        let server = if entity.entity_type == EntityType::IpAddress {
            copy_text(ARIN_WHOIS)
        } else {
            copy_text(IANA_WHOIS)
        };
        Lookup { server, asked: 0 }
    }

    /// Decides from the answer of the server whether to go on: where it refers
    /// to another server, that one is asked next, as long as no more referrals
    /// are followed than there may be.
    pub fn goes_on(&mut self, answer: &str) -> (r: bool)
        requires
            old(self).asked <= MAX_REFERRALS,
        ensures
            final(self).asked == old(self).asked + 1,
            r ==> final(self).asked <= MAX_REFERRALS,
            r == (old(self).asked < MAX_REFERRALS && (referral(answer@) matches Some(next) && next
                != old(self).server@)),
            final(self).server@ == match referral(answer@) {
                Some(next) if r => next,
                _ => old(self).server@,
            },
            match server_after(old(self).server@, old(self).asked as int, answer@) {
                Some(next) => r && final(self).server@ == next,
                None => !r && final(self).server@ == old(self).server@,
            },
    {
        self.asked = self.asked + 1;
        match find_referral(answer) {
            Some(next) => {
                if self.asked <= MAX_REFERRALS && !same_text(next.as_str(), self.server.as_str()) {
                    self.server = next;
                    true
                } else {
                    false
                }
            },
            None => false,
        }
    }

    /// The error for a server that could not be asked.
    pub fn failure(&self, message: &str) -> (r: Error)
        ensures
            r@ == (ErrorView::PluginExecution {
                plugin: "whois"@,
                message: self.server@ + ": "@ + message@,
            }),
    {
        let mut m = self.server.clone();
        m.append(": ");
        m.append(message);
        plugin_failure("whois", m)
    }
}

/// What is sent to a server to ask about a name or an address.
pub fn question(value: &str) -> (r: String)
    ensures
        r@ == value@ + "\r\n"@,
{
    let mut r = copy_text(value);
    r.append("\r\n");
    r
}

/// The text of an answer.
pub fn answer_text(bytes: &[u8]) -> (r: String)
    ensures
        r@ == text_of(bytes@),
{
    lossy_text(bytes)
}

/// What an answer says of the network of an entity: its range and the
/// autonomous system it comes from.
pub open spec fn range_in(text: Seq<char>) -> Option<Seq<char>> {
    field(text, seq!["CIDR:"@, "inetnum:"@])
}

pub open spec fn origin_in(text: Seq<char>) -> Option<Seq<char>> {
    field(text, seq!["OriginAS:"@, "origin:"@])
}

/// The detail of an entity: who registered it, when, and until when.
pub open spec fn detail(text: Seq<char>) -> JsonView {
    JsonView::Object(
        map![
            "registrar"@ => text_or_null(
                field(text, seq!["Registrar:"@, "OrgName:"@, "Organization:"@, "org-name:"@]),
            ),
            "created"@ => text_or_null(
                field(text, seq!["Creation Date:"@, "Registered:"@, "created:"@]),
            ),
            "expires"@ => text_or_null(
                field(
                    text,
                    seq!["Registry Expiry Date:"@, "Expiry Date:"@, "Expires:"@, "expires:"@],
                ),
            ),
        ],
    )
}

/// A found artifact of the given kind, if there is one.
pub open spec fn found_draft(entity_type: EntityType, value: Option<Seq<char>>) -> Seq<Draft> {
    match value {
        Some(v) => seq![plain_draft(entity_type, v, "whois"@)],
        None => Seq::empty(),
    }
}

/// The link to a found artifact, if there is one.
pub open spec fn found_link(
    value: Option<Seq<char>>,
    id: u128,
    kind: RelationKindView,
) -> Seq<RelationView> {
    match value {
        Some(_) => seq![RelationView { target: id, kind }],
        None => Seq::empty(),
    }
}

/// What an answer about an entity says: its range, its origin, and the entity
/// again with its detail and links to these, which have the given ids.
pub open spec fn answer_drafts(
    entity: EntityView,
    text: Seq<char>,
    found: Seq<u128>,
) -> Seq<Draft> {
    let range = range_in(text);
    let origin = origin_in(text);
    let front = found_draft(EntityType::Cidr, range);
    (front + found_draft(EntityType::Asn, origin)).push(
        Draft {
            entity_type: entity.entity_type,
            value: entity.value,
            source: "whois"@,
            confidence: Confidence { bits: FULL_CONFIDENCE },
            metadata: detail(text),
            relations: found_link(range, found[0], RelationKindView::BelongsToCidr) + found_link(
                origin,
                found[front.len() as int],
                RelationKindView::BelongsToAsn,
            ),
        },
    )
}

/// The entities for the answer about an entity. The entity itself comes last;
/// an entity graph merges it with the one that is already there.
pub fn entities(entity: &Entity, text: &str) -> (r: Vec<Entity>)
    ensures
        drafts(r@) == answer_drafts(entity@, text@, ids(r@)),
        fresh(r@),
{
    let registrar = extract_field(text, &["Registrar:", "OrgName:", "Organization:", "org-name:"]);
    let created = extract_field(text, &["Creation Date:", "Registered:", "created:"]);
    let expires = extract_field(
        text,
        &["Registry Expiry Date:", "Expiry Date:", "Expires:", "expires:"],
    );
    let cidr = extract_field(text, &["CIDR:", "inetnum:"]);
    let asn = extract_field(text, &["OriginAS:", "origin:"]);
    proof {
        assert(label_texts(seq!["Registrar:", "OrgName:", "Organization:", "org-name:"])
            == seq!["Registrar:"@, "OrgName:"@, "Organization:"@, "org-name:"@]);
        assert(label_texts(seq!["Creation Date:", "Registered:", "created:"])
            == seq!["Creation Date:"@, "Registered:"@, "created:"@]);
        assert(label_texts(
            seq!["Registry Expiry Date:", "Expiry Date:", "Expires:", "expires:"],
        ) == seq!["Registry Expiry Date:"@, "Expiry Date:"@, "Expires:"@, "expires:"@]);
        assert(label_texts(seq!["CIDR:", "inetnum:"]) == seq!["CIDR:"@, "inetnum:"@]);
        assert(label_texts(seq!["OriginAS:", "origin:"]) == seq!["OriginAS:"@, "origin:"@]);
    }
    let mut members: Vec<(String, Json)> = Vec::new();
    put_named(&mut members, "registrar", json_text_or_null(&registrar));
    put_named(&mut members, "created", json_text_or_null(&created));
    put_named(&mut members, "expires", json_text_or_null(&expires));
    let mut updated = Entity::new(entity.entity_type, entity.value.as_str(), "whois").with_metadata(
        Json::Object(members),
    );
    assert(updated@.metadata == detail(text@));
    assert(opt_text(cidr) == range_in(text@));
    assert(opt_text(asn) == origin_in(text@));
    let mut r: Vec<Entity> = Vec::new();
    if let Some(value) = cidr {
        let e = Entity::new(EntityType::Cidr, value.as_str(), "whois");
        updated = updated.with_relation(e.id, RelationKind::BelongsToCidr);
        r.push(e);
    }
    if let Some(value) = asn {
        let e = Entity::new(EntityType::Asn, value.as_str(), "whois");
        updated = updated.with_relation(e.id, RelationKind::BelongsToAsn);
        r.push(e);
    }
    r.push(updated);
    proof {
        let want = answer_drafts(entity@, text@, ids(r@));
        assert(updated@.relations == want.last().relations);
        assert(drafts(r@) =~= want);
    }
    r
}

} // verus!
