//! What holds of what certificates say, whatever they name.
use vstd::prelude::*;
use vstd::utf8::{encode_utf8, encode_utf8_decode_utf8, encode_utf8_valid_utf8, valid_utf8};

use crate::certsh::{
    all_drafts, certificate_drafts, certspotter_certificate, crtsh_certificate, host_draft,
    live_certificate, CertSpotterRecord, CertificateView, CrtShRecord, Source,
};
use crate::entity::{Confidence, EntityType, EntityView, RelationKindView, RelationView};
use crate::json::JsonView;
use crate::text::{lower, texts};
use crate::text_laws::{law_written_numbers_read_back, number_value};
use crate::tool::filled_lines;
use crate::x509::{
    dns_name, extension_names, extensions_names, first_tlv, item_bytes, items_bytes,
    law_item_reads_back, law_items_read_back, tlvs, TlvView,
};

verus! {

/// A host on a certificate is shown as a wildcard if and only if it begins with
/// an asterisk and a dot.
pub proof fn law_only_wildcards_are_shown_as_wildcards(
    host: Seq<char>,
    domain: EntityView,
    cert_id: u128,
)
    ensures
        host_draft(host, domain, cert_id).metadata is Object,
        host_draft(host, domain, cert_id).metadata->Object_0.dom() == set!["wildcard"@],
        host_draft(host, domain, cert_id).metadata.member("wildcard"@) == Some(
            JsonView::Bool(host.len() >= 2 && host[0] == '*' && host[1] == '.'),
        ),
{
    reveal_strlit("*.");
    let star = "*."@;
    if host.len() >= 2 && host[0] == '*' && host[1] == '.' {
        assert(host.take(2) =~= star);
        assert(star.is_prefix_of(host));
    }
    if star.is_prefix_of(host) {
        assert(star[0] == host[0] && star[1] == host[1]);
    }
    assert(host_draft(host, domain, cert_id).metadata->Object_0.dom() =~= set!["wildcard"@]);
}

/// A host on a certificate is kept under its own name. It is the domain that
/// was asked about where only the case of letters differs, and else a subdomain
/// that was discovered from it; in either case it has the certificate.
pub proof fn law_a_host_has_its_certificate(host: Seq<char>, domain: EntityView, cert_id: u128)
    ensures
        ({
            let d = host_draft(host, domain, cert_id);
            &&& d.value == host
            &&& d.source == "certsh"@
            &&& d.confidence == (Confidence { bits: 0x3F80_0000 })
            &&& d.relations.len() > 0
            &&& d.relations[0] == (RelationView {
                target: cert_id,
                kind: RelationKindView::HasCertificate,
            })
            &&& lower(host) == lower(domain.value) ==> d.entity_type == EntityType::Domain
                && d.relations.len() == 1
            &&& lower(host) != lower(domain.value) ==> d.entity_type == EntityType::Subdomain
                && d.relations.len() == 2 && d.relations[1] == (RelationView {
                target: domain.id,
                kind: RelationKindView::DiscoveredFrom,
            })
        }),
{
}

/// The number of entities that certificates lead to: one for each, and one for
/// each of its hosts.
pub open spec fn entity_count(certs: Seq<CertificateView>) -> int
    decreases certs.len(),
{
    if certs.len() == 0 {
        0
    } else {
        entity_count(certs.drop_last()) + 1 + certs.last().hosts.len()
    }
}

/// Certificates lead to as many entities as there are certificates and hosts on
/// them. Each certificate stands before its hosts, with its own name and
/// detail, and each host has that certificate.
pub proof fn law_every_certificate_leads_to_itself_and_its_hosts(
    domain: EntityView,
    certs: Seq<CertificateView>,
    found: Seq<u128>,
    c: int,
    h: int,
)
    requires
        0 <= c < certs.len(),
        found.len() == entity_count(certs),
    ensures
        ({
            let all = all_drafts(domain, certs, found);
            let at = entity_count(certs.take(c));
            &&& all.len() == entity_count(certs)
            &&& 0 <= at < all.len()
            &&& all[at].entity_type == EntityType::Certificate
            &&& all[at].value == certs[c].value
            &&& all[at].metadata == certs[c].metadata
            &&& all[at].source == "certsh"@
            &&& all[at].relations.len() == 0
            &&& 0 <= h < certs[c].hosts.len() ==> at + 1 + h < all.len() && all[at + 1 + h]
                == host_draft(certs[c].hosts[h], domain, found[at])
        }),
    decreases certs.len(),
{
    lemma_draft_count(domain, certs, found);
    lemma_draft_count(domain, certs.drop_last(), found);
    let front = all_drafts(domain, certs.drop_last(), found);
    let all = all_drafts(domain, certs, found);
    let last = certs.last();
    let here = found.skip(front.len() as int);
    let own = certificate_drafts(domain, last, here);
    assert(all == front + own);
    if c == certs.len() - 1 {
        assert(certs.take(c) == certs.drop_last());
        let at = front.len() as int;
        assert(all[at] == own[0]);
        assert(here[0] == found[at]);
        if 0 <= h < last.hosts.len() {
            assert(all[at + 1 + h] == own[1 + h]);
            assert(own[1 + h] == host_draft(last.hosts[h], domain, here[0]));
        }
    } else {
        assert(certs.drop_last().take(c) == certs.take(c));
        assert(certs.drop_last()[c] == certs[c]);
        lemma_fewer_ids(domain, certs.drop_last(), found, front.len() as int);
        let less = found.take(front.len() as int);
        law_every_certificate_leads_to_itself_and_its_hosts(domain, certs.drop_last(), less, c, h);
        let at = entity_count(certs.take(c));
        assert(less[at] == found[at]);
        assert(all[at] == front[at]);
        if 0 <= h < certs[c].hosts.len() {
            assert(all[at + 1 + h] == front[at + 1 + h]);
        }
    }
}

proof fn lemma_draft_count(domain: EntityView, certs: Seq<CertificateView>, found: Seq<u128>)
    ensures
        all_drafts(domain, certs, found).len() == entity_count(certs),
    decreases certs.len(),
{
    if certs.len() > 0 {
        lemma_draft_count(domain, certs.drop_last(), found);
    }
}

proof fn lemma_fewer_ids(
    domain: EntityView,
    certs: Seq<CertificateView>,
    found: Seq<u128>,
    n: int,
)
    requires
        entity_count(certs) <= n <= found.len(),
    ensures
        all_drafts(domain, certs, found.take(n)) == all_drafts(domain, certs, found),
    decreases certs.len(),
{
    if certs.len() > 0 {
        lemma_fewer_ids(domain, certs.drop_last(), found, n);
        lemma_draft_count(domain, certs.drop_last(), found);
        let k = entity_count(certs.drop_last());
        let a = certificate_drafts(domain, certs.last(), found.take(n).skip(k));
        let b = certificate_drafts(domain, certs.last(), found.skip(k));
        assert(found.take(n).skip(k)[0] == found.skip(k)[0]);
        assert(a =~= b);
    }
}

/// A record of crt.sh is about a certificate that is called by the record's
/// number in decimal; who issued it and how long it is valid are shown each
/// under its own name, and its hosts stand in the lines of the record.
pub proof fn law_a_crtsh_record_is_shown_field_by_field(rec: CrtShRecord)
    ensures
        ({
            let c = crtsh_certificate(rec);
            &&& number_value(c.value, 10) == rec.id
            &&& c.metadata.member("issuer"@) == Some(match rec.issuer_name {
                Some(s) => JsonView::Text(s@),
                None => JsonView::Null,
            })
            &&& c.metadata.member("not_before"@) == Some(match rec.not_before {
                Some(s) => JsonView::Text(s@),
                None => JsonView::Null,
            })
            &&& c.metadata.member("not_after"@) == Some(match rec.not_after {
                Some(s) => JsonView::Text(s@),
                None => JsonView::Null,
            })
            &&& c.metadata.member("fallback_source"@) is None
            &&& c.hosts == filled_lines(rec.name_value@)
        }),
{
    law_written_numbers_read_back(rec.id as nat, 10);
    lemma_member_names();
}

/// A record of certspotter is about a certificate that is called by the
/// record's id; it is shown like one of crt.sh, with a note where it is from,
/// and has the hosts that the record lists.
pub proof fn law_a_certspotter_record_is_shown_field_by_field(rec: CertSpotterRecord)
    ensures
        ({
            let c = certspotter_certificate(rec);
            &&& c.value == rec.id@
            &&& c.metadata.member("issuer"@) == Some(match rec.issuer {
                Some(i) => match i.name {
                    Some(s) => JsonView::Text(s@),
                    None => JsonView::Null,
                },
                None => JsonView::Null,
            })
            &&& c.metadata.member("not_before"@) == Some(match rec.not_before {
                Some(s) => JsonView::Text(s@),
                None => JsonView::Null,
            })
            &&& c.metadata.member("not_after"@) == Some(match rec.not_after {
                Some(s) => JsonView::Text(s@),
                None => JsonView::Null,
            })
            &&& c.metadata.member("fallback_source"@) == Some(JsonView::Text("certspotter"@))
            &&& c.hosts.len() == rec.dns_names@.len()
            &&& forall|i: int|
                0 <= i < rec.dns_names@.len() ==> #[trigger] c.hosts[i] == rec.dns_names@[i]@
        }),
{
    lemma_member_names();
    assert(texts(rec.dns_names@).len() == rec.dns_names@.len());
}

/// The certificate that a domain presents is called after the domain, and has
/// the hosts that it names.
pub proof fn law_a_live_certificate_is_called_after_the_domain(
    domain: Seq<char>,
    hosts: Seq<Seq<char>>,
)
    ensures
        live_certificate(domain, hosts).value == "tls-live:"@ + domain,
        live_certificate(domain, hosts).hosts == hosts,
        live_certificate(domain, hosts).metadata.member("source_method"@) == Some(
            JsonView::Text("live_tls_handshake"@),
        ),
{
}

proof fn lemma_member_names()
    ensures
        "issuer"@ != "not_before"@,
        "issuer"@ != "not_after"@,
        "issuer"@ != "fallback_source"@,
        "not_before"@ != "not_after"@,
        "not_before"@ != "fallback_source"@,
        "not_after"@ != "fallback_source"@,
{
    reveal_strlit("issuer");
    reveal_strlit("not_before");
    reveal_strlit("not_after");
    reveal_strlit("fallback_source");
    assert("issuer"@.len() == 6 && "not_before"@.len() == 10 && "not_after"@.len() == 9
        && "fallback_source"@.len() == 15);
}

/// What went wrong with a source is told behind its name.
pub proof fn law_sources_are_called_by_name()
    ensures
        Source::CrtSh.label() == "crt.sh: "@,
        Source::CertSpotter.label() == "certspotter: "@,
        Source::LiveTls.label() == "live TLS: "@,
{
}

/// Only entries that are marked as host names and hold text name a host, and
/// the host is that text.
pub proof fn law_only_host_names_name_hosts(item: TlvView, name: Seq<char>)
    ensures
        item.tag != 0x82 ==> dns_name(item) is None,
        item.tag == 0x82 && item.value == encode_utf8(name) ==> dns_name(item) == Some(name),
        !valid_utf8(item.value) ==> dns_name(item) is None,
{
    encode_utf8_valid_utf8(name);
    encode_utf8_decode_utf8(name);
}

/// An extension with another object identifier than that of alternative names
/// names no host, and neither does an item that is no sequence.
pub proof fn law_other_extensions_name_no_host(extension: TlvView)
    requires
        extension.tag != 0x30 || tlvs(extension.value).len() == 0 || tlvs(extension.value)[0].tag
            != 6 || tlvs(extension.value)[0].value != seq![0x55u8, 0x1Du8, 0x11u8],
    ensures
        extension_names(extension).len() == 0,
{
}

/// An extension that was written with any entries names the hosts among them,
/// in order, and nothing else.
pub proof fn law_the_hosts_among_other_names_are_read(items: Seq<TlvView>, critical: bool)
    requires
        ({
            let oid = TlvView { tag: 6, value: seq![0x55u8, 0x1Du8, 0x11u8] };
            let flag = TlvView { tag: 1, value: seq![0xFFu8] };
            let payload = TlvView {
                tag: 4,
                value: item_bytes(TlvView { tag: 0x30, value: items_bytes(items) }),
            };
            items_bytes(
                if critical {
                    seq![oid, flag, payload]
                } else {
                    seq![oid, payload]
                },
            ).len() < 0x1_0000_0000
        }),
        items_bytes(items).len() < 0x1_0000_0000,
    ensures
        ({
            let oid = TlvView { tag: 6, value: seq![0x55u8, 0x1Du8, 0x11u8] };
            let flag = TlvView { tag: 1, value: seq![0xFFu8] };
            let payload = TlvView {
                tag: 4,
                value: item_bytes(TlvView { tag: 0x30, value: items_bytes(items) }),
            };
            let fields = if critical {
                seq![oid, flag, payload]
            } else {
                seq![oid, payload]
            };
            extension_names(TlvView { tag: 0x30, value: items_bytes(fields) }) == items.filter_map(
                |i: TlvView| dns_name(i),
            )
        }),
{
    let oid = TlvView { tag: 6, value: seq![0x55u8, 0x1Du8, 0x11u8] };
    let flag = TlvView { tag: 1, value: seq![0xFFu8] };
    let list = TlvView { tag: 0x30, value: items_bytes(items) };
    let payload = TlvView { tag: 4, value: item_bytes(list) };
    let fields = if critical {
        seq![oid, flag, payload]
    } else {
        seq![oid, payload]
    };
    law_items_read_back(fields);
    law_items_read_back(items);
    law_item_reads_back(list, Seq::empty());
    assert(item_bytes(list) + Seq::<u8>::empty() == item_bytes(list));
    assert(fields[0] == oid);
}

/// The hosts of extensions are those of each, one after the other.
pub proof fn law_extensions_add_up(a: Seq<TlvView>, b: Seq<TlvView>, e: TlvView)
    ensures
        extensions_names(Seq::empty()) == Seq::<Seq<char>>::empty(),
        extensions_names(seq![e]) == extension_names(e),
        extensions_names(a + b) == extensions_names(a) + extensions_names(b),
    decreases b.len(),
{
    assert(seq![e].drop_last() == Seq::<TlvView>::empty());
    reveal_with_fuel(extensions_names, 2);
    assert(extensions_names(seq![e]) =~= extension_names(e));
    if b.len() == 0 {
        assert(a + b =~= a);
        assert(extensions_names(a) + extensions_names(b) =~= extensions_names(a));
    } else {
        law_extensions_add_up(a, b.drop_last(), e);
        assert((a + b).drop_last() =~= a + b.drop_last());
        assert((a + b).last() == b.last());
        assert(extensions_names(a + b) =~= extensions_names(a) + extensions_names(b));
    }
}

/// Lengths that are not told, that take more than four bytes, or that reach
/// behind the end of the data mark no item.
pub proof fn law_items_need_a_length_that_fits(data: Seq<u8>)
    ensures
        data.len() < 2 ==> first_tlv(data) is None,
        data.len() >= 2 && (data[1] == 0x80 || data[1] > 0x84) ==> first_tlv(data) is None,
        data.len() >= 2 && data[1] < 0x80 && data.len() < 2 + data[1] ==> first_tlv(data) is None,
{
}

/// Reading stops at what cannot be read: the items before it are read.
pub proof fn law_reading_stops_at_what_cannot_be_read(items: Seq<TlvView>, junk: Seq<u8>)
    requires
        first_tlv(junk) is None,
        forall|i: int| 0 <= i < items.len() ==> (#[trigger] items[i]).value.len() < 0x1_0000_0000,
    ensures
        tlvs(items_bytes(items) + junk) == items,
    decreases items.len(),
{
    let data = items_bytes(items) + junk;
    if items.len() == 0 {
        assert(data =~= junk);
        assert(tlvs(data) =~= items);
    } else {
        let rest = items_bytes(items.skip(1)) + junk;
        assert(data =~= item_bytes(items[0]) + rest);
        law_item_reads_back(items[0], rest);
        assert forall|i: int| 0 <= i < items.skip(1).len() implies (
        #[trigger] items.skip(1)[i]).value.len() < 0x1_0000_0000 by {
            assert(items.skip(1)[i] == items[i + 1]);
        }
        law_reading_stops_at_what_cannot_be_read(items.skip(1), junk);
        assert(seq![items[0]] + items.skip(1) =~= items);
    }
}

} // verus!
