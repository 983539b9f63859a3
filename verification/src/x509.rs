//! A reader for the small part of DER and X.509 that it takes to find the
//! `dNSName` entries of a certificate's `subjectAltName` extension.
use vstd::prelude::*;
use vstd::utf8::{
    decode_utf8, encode_utf8, encode_utf8_decode_utf8, encode_utf8_valid_utf8, valid_utf8,
};

use crate::octets::strict_text;
use crate::text::texts;

verus! {

/// The object identifier 2.5.29.17 (subjectAltName) as DER writes its value.
pub open spec fn san_oid() -> Seq<u8> {
    seq![0x55u8, 0x1Du8, 0x11u8]
}

/// One tag, length and value.
pub struct Tlv<'a> {
    pub tag: u8,
    pub value: &'a [u8],
}

/// A tag and the value that it marks.
pub struct TlvView {
    pub tag: u8,
    pub value: Seq<u8>,
}

impl<'a> View for Tlv<'a> {
    type V = TlvView;

    open spec fn view(&self) -> TlvView {
        TlvView { tag: self.tag, value: self.value@ }
    }
}

/// The models of the items in a list.
pub open spec fn tlv_views<'a>(v: Seq<Tlv<'a>>) -> Seq<TlvView> {
    v.map_values(|t: Tlv<'a>| t@)
}

/// The number that bytes stand for, the high byte first.
pub open spec fn be_number(s: Seq<u8>) -> nat
    decreases s.len(),
{
    if s.len() == 0 {
        0
    } else {
        be_number(s.drop_last()) * 256 + s.last() as nat
    }
}

/// The number of bytes that tag and length take at the front of `data`, and
/// the length: one byte below 128, or else a byte that tells in how many
/// bytes, one to four, the length follows.
pub open spec fn tlv_header(data: Seq<u8>) -> Option<(int, int)> {
    if data.len() < 2 {
        None
    } else if data[1] < 0x80 {
        Some((2, data[1] as int))
    } else {
        let n = data[1] - 0x80;
        if n == 0 || n > 4 || data.len() < 2 + n {
            None
        } else {
            Some((2 + n, be_number(data.subrange(2, 2 + n)) as int))
        }
    }
}

/// The item at the front of `data`, and what follows it.
pub open spec fn first_tlv(data: Seq<u8>) -> Option<(TlvView, Seq<u8>)> {
    match tlv_header(data) {
        Some((start, len)) if start + len <= data.len() => Some(
            (
                TlvView { tag: data[0], value: data.subrange(start, start + len) },
                data.skip(start + len),
            ),
        ),
        _ => None,
    }
}

/// The items that stand one after the other in `data`, up to its end or to
/// the first that cannot be read.
pub open spec fn tlvs(data: Seq<u8>) -> Seq<TlvView>
    decreases data.len(),
{
    match first_tlv(data) {
        Some((item, rest)) if rest.len() < data.len() => seq![item] + tlvs(rest),
        _ => Seq::empty(),
    }
}

/// The host name that a GeneralName holds, if it is a `dNSName` (context tag
/// 2) and its bytes are text.
pub open spec fn dns_name(name: TlvView) -> Option<Seq<char>> {
    if name.tag == 0x82 && valid_utf8(name.value) {
        Some(decode_utf8(name.value))
    } else {
        None
    }
}

/// The payload of an extension if it is a `subjectAltName`: the field behind
/// the object identifier and the `critical` flag, which may be missing.
pub open spec fn san_payload(extension: TlvView) -> Option<TlvView> {
    let fields = tlvs(extension.value);
    if extension.tag != 0x30 || fields.len() == 0 || fields[0].tag != 0x06 || fields[0].value
        != san_oid() {
        None
    } else {
        let at: int = if fields.len() > 1 && fields[1].tag == 0x01 {
            2
        } else {
            1
        };
        if at < fields.len() {
            Some(fields[at])
        } else {
            None
        }
    }
}

/// The host names in an extension.
pub open spec fn extension_names(extension: TlvView) -> Seq<Seq<char>> {
    match san_payload(extension) {
        Some(payload) if payload.tag == 0x04 => match first_tlv(payload.value) {
            Some((names, _)) if names.tag == 0x30 => tlvs(names.value).filter_map(
                |n: TlvView| dns_name(n),
            ),
            _ => Seq::empty(),
        },
        _ => Seq::empty(),
    }
}

/// The host names in a list of extensions.
pub open spec fn extensions_names(extensions: Seq<TlvView>) -> Seq<Seq<char>>
    decreases extensions.len(),
{
    if extensions.len() == 0 {
        Seq::empty()
    } else {
        extensions_names(extensions.drop_last()) + extension_names(extensions.last())
    }
}

/// The content of the sequence at the front of `data`.
pub open spec fn sequence_content(data: Seq<u8>) -> Option<Seq<u8>> {
    match first_tlv(data) {
        Some((item, _)) if item.tag == 0x30 => Some(item.value),
        _ => None,
    }
}

/// The first item with the given tag.
pub open spec fn with_tag(items: Seq<TlvView>, tag: u8) -> Option<TlvView>
    decreases items.len(),
{
    if items.len() == 0 {
        None
    } else {
        match with_tag(items.drop_last(), tag) {
            Some(item) => Some(item),
            None => if items.last().tag == tag {
                Some(items.last())
            } else {
                None
            },
        }
    }
}

/// The extensions of a certificate: the sequence in the item with context tag
/// 3 among the fields of the certificate's first part.
pub open spec fn certificate_extensions(cert: Seq<u8>) -> Option<Seq<TlvView>> {
    match sequence_content(cert) {
        None => None,
        Some(body) => match sequence_content(body) {
            None => None,
            Some(tbs) => match with_tag(tlvs(tbs), 0xA3) {
                None => None,
                Some(wrapper) => match sequence_content(wrapper.value) {
                    None => None,
                    Some(list) => Some(tlvs(list)),
                },
            },
        },
    }
}

/// The host names that a certificate is for.
pub open spec fn certificate_names(cert: Seq<u8>) -> Seq<Seq<char>> {
    match certificate_extensions(cert) {
        Some(extensions) => extensions_names(extensions),
        None => Seq::empty(),
    }
}

/// Reads the item at the front of `data`, and gives what follows it.
pub fn read_tlv<'a>(data: &'a [u8]) -> (r: Option<(Tlv<'a>, &'a [u8])>)
    ensures
        match r {
            Some((item, rest)) => first_tlv(data@) == Some((item@, rest@)) && rest@.len() < data@.len(),
            None => first_tlv(data@) is None,
        },
{
    if data.len() < 2 {
        return None;
    }
    let mut start: usize = 2;
    let mut len: u64 = data[1] as u64;
    if data[1] >= 0x80 {
        let n: usize = data[1] as usize - 0x80;
        if n == 0 || n > 4 || data.len() - 2 < n {
            return None;
        }
        len = 0;
        let mut i: usize = 0;
        while i < n
            invariant
                i <= n <= 4,
                2 + n <= data@.len(),
                len == be_number(data@.subrange(2, 2 + i)),
                i == 0 ==> len == 0,
                i == 1 ==> len < 0x100,
                i == 2 ==> len < 0x1_0000,
                i == 3 ==> len < 0x100_0000,
                i == 4 ==> len < 0x1_0000_0000,
            decreases n - i,
        {
            assert(data@.subrange(2, 2 + i + 1).drop_last() == data@.subrange(2, 2 + i));
            len = len * 256 + data[2 + i] as u64;
            i += 1;
        }
        start = 2 + n;
    }
    if len > (data.len() - start) as u64 {
        return None;
    }
    let end: usize = start + len as usize;
    let item = Tlv { tag: data[0], value: vstd::slice::slice_subrange(data, start, end) };
    let rest = vstd::slice::slice_subrange(data, end, data.len());
    assert(rest@ == data@.skip(end as int));
    Some((item, rest))
}

/// Reads every item of `data`, up to its end or to the first that cannot be
/// read.
pub fn iter_tlvs<'a>(data: &'a [u8]) -> (r: Vec<Tlv<'a>>)
    ensures
        tlv_views(r@) == tlvs(data@),
{
    let mut items: Vec<Tlv<'a>> = Vec::new();
    let mut rest: &'a [u8] = data;
    assert(tlv_views(items@) + tlvs(data@) == tlvs(data@));
    loop
        invariant
            tlvs(data@) == tlv_views(items@) + tlvs(rest@),
        decreases rest@.len(),
    {
        match read_tlv(rest) {
            None => {
                assert(tlv_views(items@) + Seq::<TlvView>::empty() == tlv_views(items@));
                return items;
            },
            Some((item, next)) => {
                let ghost old_items = tlv_views(items@);
                items.push(item);
                proof {
                    assert(tlv_views(items@) == old_items + seq![item@]);
                    assert(old_items + (seq![item@] + tlvs(next@)) == tlv_views(items@) + tlvs(next@));
                }
                rest = next;
            },
        }
    }
}

/// Reads the sequence at the front of `data`.
fn read_sequence<'a>(data: &'a [u8]) -> (r: Option<&'a [u8]>)
    ensures
        match r {
            Some(content) => sequence_content(data@) == Some(content@),
            None => sequence_content(data@) is None,
        },
{
    match read_tlv(data) {
        Some((item, _)) => if item.tag == 0x30 {
            Some(item.value)
        } else {
            None
        },
        None => None,
    }
}

fn is_san_oid(bytes: &[u8]) -> (r: bool)
    ensures
        r == (bytes@ == san_oid()),
{
    if bytes.len() == 3 && bytes[0] == 0x55 && bytes[1] == 0x1D && bytes[2] == 0x11 {
        assert(bytes@ == san_oid());
        true
    } else {
        false
    }
}

/// Finds the payload of a `subjectAltName` extension.
fn find_san_payload<'a>(extension: &Tlv<'a>) -> (r: Option<&'a [u8]>)
    ensures
        match r {
            Some(bytes) => san_payload(extension@) == Some(TlvView { tag: 0x04, value: bytes@ }),
            None => san_payload(extension@) is None || san_payload(extension@)->0.tag != 0x04,
        },
{
    if extension.tag != 0x30 {
        return None;
    }
    let fields = iter_tlvs(extension.value);
    assert(forall|i: int| 0 <= i < fields@.len() ==> tlv_views(fields@)[i] == (#[trigger] fields@[i])@);
    if fields.len() == 0 || fields[0].tag != 0x06 || !is_san_oid(fields[0].value) {
        return None;
    }
    let at: usize = if fields.len() > 1 && fields[1].tag == 0x01 {
        2
    } else {
        1
    };
    if at < fields.len() && fields[at].tag == 0x04 {
        Some(fields[at].value)
    } else {
        None
    }
}

/// Appends the host names among GeneralNames.
fn push_dns_names<'a>(names: &mut Vec<String>, items: &Vec<Tlv<'a>>)
    ensures
        texts(final(names)@) == texts(old(names)@) + tlv_views(items@).filter_map(
            |n: TlvView| dns_name(n),
        ),
{
    let ghost f = |n: TlvView| dns_name(n);
    let ghost views = tlv_views(items@);
    let mut i: usize = 0;
    assert(views.take(0).filter_map(f) == Seq::<Seq<char>>::empty());
    assert(texts(names@) == texts(old(names)@) + Seq::<Seq<char>>::empty());
    while i < items.len()
        invariant
            i <= items.len(),
            views == tlv_views(items@),
            f == (|n: TlvView| dns_name(n)),
            texts(names@) == texts(old(names)@) + views.take(i as int).filter_map(f),
        decreases items.len() - i,
    {
        let ghost before = texts(names@);
        proof {
            assert(views.take(i + 1).drop_last() == views.take(i as int));
            assert(views.take(i + 1).last() == items@[i as int]@);
        }
        if items[i].tag == 0x82 {
            if let Some(name) = strict_text(items[i].value) {
                names.push(name);
                assert(texts(names@) == before + seq![name@]);
            }
        }
        assert(texts(names@) == texts(old(names)@) + views.take(i + 1).filter_map(f));
        i += 1;
    }
    assert(views.take(i as int) == views);
}

/// Extracts every `dNSName` of the `subjectAltName` extension of a
/// certificate. A certificate that is malformed or has no such extension
/// gives no names: a certificate that a server shows is a best-effort source.
pub fn extract_san_dns_names(cert_der: &[u8]) -> (r: Vec<String>)
    ensures
        texts(r@) == certificate_names(cert_der@),
{
    let mut names: Vec<String> = Vec::new();
    assert(texts(names@) == Seq::<Seq<char>>::empty());
    let tbs = match read_sequence(cert_der) {
        None => {
            return names;
        },
        Some(body) => match read_sequence(body) {
            None => {
                return names;
            },
            Some(tbs) => tbs,
        },
    };
    let fields = iter_tlvs(tbs);
    let ghost field_views = tlv_views(fields@);
    let mut i: usize = 0;
    while i < fields.len() && fields[i].tag != 0xA3
        invariant
            i <= fields.len(),
            field_views == tlv_views(fields@),
            with_tag(field_views.take(i as int), 0xA3) is None,
        decreases fields.len() - i,
    {
        assert(field_views.take(i + 1).drop_last() == field_views.take(i as int));
        assert(field_views.take(i + 1).last() == fields@[i as int]@);
        i += 1;
    }
    if i == fields.len() {
        assert(field_views.take(i as int) == field_views);
        return names;
    }
    proof {
        assert(field_views.take(i + 1).drop_last() == field_views.take(i as int));
        assert(field_views.take(i + 1).last() == fields@[i as int]@);
        lemma_with_tag_stable(field_views, i + 1, 0xA3);
    }
    let list = match read_sequence(fields[i].value) {
        None => {
            return names;
        },
        Some(list) => list,
    };
    let extensions = iter_tlvs(list);
    let ghost views = tlv_views(extensions@);
    let mut k: usize = 0;
    while k < extensions.len()
        invariant
            k <= extensions.len(),
            views == tlv_views(extensions@),
            texts(names@) == extensions_names(views.take(k as int)),
        decreases extensions.len() - k,
    {
        proof {
            assert(views.take(k + 1).drop_last() == views.take(k as int));
            assert(views.take(k + 1).last() == extensions@[k as int]@);
            assert(texts(names@) + Seq::<Seq<char>>::empty() == texts(names@));
        }
        if let Some(payload) = find_san_payload(&extensions[k]) {
            if let Some(general_names) = read_sequence(payload) {
                let items = iter_tlvs(general_names);
                push_dns_names(&mut names, &items);
            }
        }
        k += 1;
    }
    assert(views.take(k as int) == views);
    names
}

proof fn lemma_with_tag_stable(items: Seq<TlvView>, n: int, tag: u8)
    requires
        0 <= n <= items.len(),
        with_tag(items.take(n), tag) is Some,
    ensures
        with_tag(items, tag) == with_tag(items.take(n), tag),
    decreases items.len() - n,
{
    if n < items.len() {
        assert(items.take(n + 1).drop_last() == items.take(n));
        lemma_with_tag_stable(items, n + 1, tag);
    } else {
        assert(items.take(n) == items);
    }
}

/// A length as DER writes it: one byte below 128, or else the bytes of the
/// number behind a byte that tells how many they are.
pub open spec fn length_bytes(n: nat) -> Seq<u8> {
    if n < 0x80 {
        seq![n as u8]
    } else if n < 0x100 {
        seq![0x81, n as u8]
    } else if n < 0x1_0000 {
        seq![0x82, (n / 0x100) as u8, (n % 0x100) as u8]
    } else if n < 0x100_0000 {
        seq![0x83, (n / 0x1_0000) as u8, (n / 0x100 % 0x100) as u8, (n % 0x100) as u8]
    } else {
        seq![
            0x84,
            (n / 0x100_0000) as u8,
            (n / 0x1_0000 % 0x100) as u8,
            (n / 0x100 % 0x100) as u8,
            (n % 0x100) as u8,
        ]
    }
}

/// The greatest length that can be read, and one more.
pub open spec fn length_limit() -> nat {
    0x1_0000_0000
}

/// An item as DER writes it.
pub open spec fn item_bytes(item: TlvView) -> Seq<u8> {
    seq![item.tag] + length_bytes(item.value.len()) + item.value
}

/// Items one after the other.
pub open spec fn items_bytes(items: Seq<TlvView>) -> Seq<u8>
    decreases items.len(),
{
    if items.len() == 0 {
        Seq::empty()
    } else {
        item_bytes(items[0]) + items_bytes(items.skip(1))
    }
}

/// An item that was written is read back, whatever follows it.
pub proof fn law_item_reads_back(item: TlvView, rest: Seq<u8>)
    requires
        item.value.len() < length_limit(),
    ensures
        first_tlv(item_bytes(item) + rest) == Some((item, rest)),
{
    let n = item.value.len();
    let len = length_bytes(n);
    let data = item_bytes(item) + rest;
    let k = len.len() as int;
    assert(data[0] == item.tag);
    assert(data[1] == len[0]);
    if n >= 0x80 {
        let tail = data.subrange(2, 1 + k);
        assert(tail == len.skip(1));
        reveal_with_fuel(be_number, 5);
        let t1 = tail.drop_last();
        let t2 = t1.drop_last();
        let t3 = t2.drop_last();
        if n < 0x100 {
            assert(t1 == Seq::<u8>::empty());
            assert(be_number(tail) == n);
        } else if n < 0x1_0000 {
            assert(t2 == Seq::<u8>::empty());
            assert(be_number(tail) == (n / 0x100) * 256 + n % 0x100);
        } else if n < 0x100_0000 {
            assert(t3 == Seq::<u8>::empty());
            assert(be_number(tail) == ((n / 0x1_0000) * 256 + n / 0x100 % 0x100) * 256 + n % 0x100);
        } else {
            assert(t3.drop_last() == Seq::<u8>::empty());
            assert(be_number(t3) == n / 0x100_0000);
            assert(be_number(t2) == (n / 0x100_0000) * 256 + n / 0x1_0000 % 0x100);
            assert(be_number(t1) == ((n / 0x100_0000) * 256 + n / 0x1_0000 % 0x100) * 256 + n
                / 0x100 % 0x100);
        }
        assert(be_number(tail) == n);
    }
    assert(tlv_header(data) == Some((1 + k, n as int)));
    assert(data.subrange(1 + k, 1 + k + n) == item.value);
    assert(data.skip(1 + k + n) == rest);
}

/// Items that were written one after the other are read back, in order.
pub proof fn law_items_read_back(items: Seq<TlvView>)
    requires
        items_bytes(items).len() < length_limit(),
    ensures
        tlvs(items_bytes(items)) == items,
    decreases items.len(),
{
    if items.len() == 0 {
        assert(tlvs(items_bytes(items)) =~= items);
    } else {
        let rest = items_bytes(items.skip(1));
        assert(item_bytes(items[0]).len() > items[0].value.len());
        law_item_reads_back(items[0], rest);
        law_items_read_back(items.skip(1));
        assert(seq![items[0]] + items.skip(1) == items);
    }
}

/// A `dNSName` entry for a host.
pub open spec fn name_item(name: Seq<char>) -> TlvView {
    TlvView { tag: 0x82, value: encode_utf8(name) }
}

/// The payload of a `subjectAltName` extension for the given hosts.
pub open spec fn payload_bytes(names: Seq<Seq<char>>) -> Seq<u8> {
    item_bytes(
        TlvView {
            tag: 0x30,
            value: items_bytes(names.map_values(|n: Seq<char>| name_item(n))),
        },
    )
}

/// The fields of a `subjectAltName` extension, with the `critical` flag or
/// without.
pub open spec fn extension_fields(names: Seq<Seq<char>>, critical: bool) -> Seq<TlvView> {
    let oid = TlvView { tag: 0x06, value: san_oid() };
    let payload = TlvView { tag: 0x04, value: payload_bytes(names) };
    if critical {
        seq![oid, TlvView { tag: 0x01, value: seq![0xFFu8] }, payload]
    } else {
        seq![oid, payload]
    }
}

/// A `subjectAltName` extension for the given hosts.
pub open spec fn san_extension(names: Seq<Seq<char>>, critical: bool) -> TlvView {
    TlvView { tag: 0x30, value: items_bytes(extension_fields(names, critical)) }
}

proof fn lemma_names_decode(names: Seq<Seq<char>>)
    ensures
        names.map_values(|n: Seq<char>| name_item(n)).filter_map(|i: TlvView| dns_name(i)) == names,
    decreases names.len(),
{
    reveal(Seq::filter_map);
    let write = |n: Seq<char>| name_item(n);
    let items = names.map_values(write);
    if names.len() > 0 {
        let last = names.last();
        lemma_names_decode(names.drop_last());
        encode_utf8_valid_utf8(last);
        encode_utf8_decode_utf8(last);
        assert(items.drop_last() == names.drop_last().map_values(write));
        assert(names.drop_last().push(last) == names);
    }
}

proof fn lemma_items_hold(items: Seq<TlvView>, i: int)
    requires
        0 <= i < items.len(),
    ensures
        item_bytes(items[i]).len() <= items_bytes(items).len(),
    decreases items.len(),
{
    if i > 0 {
        lemma_items_hold(items.skip(1), i - 1);
    }
}

/// The hosts that a `subjectAltName` extension was written for are read back.
pub proof fn law_extension_reads_back(names: Seq<Seq<char>>, critical: bool)
    requires
        san_extension(names, critical).value.len() < length_limit(),
    ensures
        extension_names(san_extension(names, critical)) == names,
{
    let fields = extension_fields(names, critical);
    let at = fields.len() - 1;
    let inner = TlvView {
        tag: 0x30,
        value: items_bytes(names.map_values(|n: Seq<char>| name_item(n))),
    };
    law_items_read_back(fields);
    lemma_items_hold(fields, at);
    assert(item_bytes(fields[at]).len() > payload_bytes(names).len());
    assert(payload_bytes(names).len() > inner.value.len());
    law_items_read_back(names.map_values(|n: Seq<char>| name_item(n)));
    law_item_reads_back(inner, Seq::empty());
    assert(item_bytes(inner) + Seq::<u8>::empty() == payload_bytes(names));
    lemma_names_decode(names);
}

/// The fields of the first part of a certificate, the extensions last.
pub open spec fn certificate_fields(fields: Seq<TlvView>, extensions: Seq<TlvView>) -> Seq<
    TlvView,
> {
    fields.push(
        TlvView {
            tag: 0xA3,
            value: item_bytes(TlvView { tag: 0x30, value: items_bytes(extensions) }),
        },
    )
}

/// A certificate: its first part, then its signature.
pub open spec fn certificate_bytes(
    fields: Seq<TlvView>,
    extensions: Seq<TlvView>,
    signature: Seq<u8>,
) -> Seq<u8> {
    item_bytes(
        TlvView {
            tag: 0x30,
            value: item_bytes(
                TlvView { tag: 0x30, value: items_bytes(certificate_fields(fields, extensions)) },
            ) + signature,
        },
    )
}

proof fn lemma_last_with_tag(items: Seq<TlvView>, tag: u8)
    requires
        items.len() > 0,
        items.last().tag == tag,
        forall|i: int| 0 <= i < items.len() - 1 ==> (#[trigger] items[i]).tag != tag,
    ensures
        with_tag(items, tag) == Some(items.last()),
{
    lemma_none_with_tag(items.drop_last(), tag);
}

proof fn lemma_none_with_tag(items: Seq<TlvView>, tag: u8)
    requires
        forall|i: int| 0 <= i < items.len() ==> (#[trigger] items[i]).tag != tag,
    ensures
        with_tag(items, tag) is None,
    decreases items.len(),
{
    if items.len() > 0 {
        assert(items[items.len() - 1].tag != tag);
        lemma_none_with_tag(items.drop_last(), tag);
    }
}

/// The extensions of a certificate are found behind any fields that are not
/// extensions, and whatever signature follows.
pub proof fn law_extensions_are_found(
    fields: Seq<TlvView>,
    extensions: Seq<TlvView>,
    signature: Seq<u8>,
)
    requires
        certificate_bytes(fields, extensions, signature).len() < length_limit(),
        forall|i: int| 0 <= i < fields.len() ==> (#[trigger] fields[i]).tag != 0xA3,
    ensures
        certificate_extensions(certificate_bytes(fields, extensions, signature)) == Some(
            extensions,
        ),
{
    let all = certificate_fields(fields, extensions);
    let list = TlvView { tag: 0x30, value: items_bytes(extensions) };
    let tbs = TlvView { tag: 0x30, value: items_bytes(all) };
    let whole = TlvView { tag: 0x30, value: item_bytes(tbs) + signature };
    assert(item_bytes(whole).len() > whole.value.len());
    assert(item_bytes(tbs).len() > tbs.value.len());
    lemma_items_hold(all, fields.len() as int);
    assert(item_bytes(all.last()).len() > all.last().value.len());
    assert(item_bytes(list).len() > list.value.len());
    law_item_reads_back(whole, Seq::empty());
    assert(item_bytes(whole) + Seq::<u8>::empty() == item_bytes(whole));
    law_item_reads_back(tbs, signature);
    law_items_read_back(all);
    lemma_last_with_tag(all, 0xA3);
    law_item_reads_back(list, Seq::empty());
    assert(item_bytes(list) + Seq::<u8>::empty() == item_bytes(list));
    law_items_read_back(extensions);
}

proof fn lemma_nameless_extensions(extensions: Seq<TlvView>)
    requires
        forall|i: int|
            0 <= i < extensions.len() ==> extension_names(#[trigger] extensions[i]).len() == 0,
    ensures
        extensions_names(extensions) == Seq::<Seq<char>>::empty(),
    decreases extensions.len(),
{
    if extensions.len() > 0 {
        lemma_nameless_extensions(extensions.drop_last());
        assert(extension_names(extensions[extensions.len() - 1]).len() == 0);
    }
}

/// A certificate that was written for some hosts gives exactly these hosts, in
/// order, however many unrelated fields and extensions stand in front.
pub proof fn law_certificate_names_read_back(
    fields: Seq<TlvView>,
    others: Seq<TlvView>,
    names: Seq<Seq<char>>,
    critical: bool,
    signature: Seq<u8>,
)
    requires
        certificate_bytes(fields, others.push(san_extension(names, critical)), signature).len()
            < length_limit(),
        forall|i: int| 0 <= i < fields.len() ==> (#[trigger] fields[i]).tag != 0xA3,
        forall|i: int| 0 <= i < others.len() ==> extension_names(#[trigger] others[i]).len() == 0,
    ensures
        certificate_names(
            certificate_bytes(fields, others.push(san_extension(names, critical)), signature),
        ) == names,
{
    let san = san_extension(names, critical);
    let extensions = others.push(san);
    law_extensions_are_found(fields, extensions, signature);
    let all = certificate_fields(fields, extensions);
    lemma_items_hold(all, fields.len() as int);
    lemma_items_hold(extensions, others.len() as int);
    assert(item_bytes(san).len() > san.value.len());
    law_extension_reads_back(names, critical);
    lemma_nameless_extensions(others);
    assert(extensions.drop_last() == others);
    assert(Seq::<Seq<char>>::empty() + names == names);
}

} // verus!
