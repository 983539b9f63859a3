//! DNS messages in the format of RFC 1035, as far as it takes to send a query
//! with one question and to read A, AAAA, CNAME, MX, TXT and NS answers.
use vstd::prelude::*;
use vstd::utf8::encode_utf8;

use crate::net::{Ipv4Addr, Ipv6Addr};
use crate::octets::{
    be16, be16_at, law_text_reads_back, lossy_text, push_be16, push_bytes, read_be16, text_of,
};
use crate::text::{
    char_lists, chars_of, drop_char, drop_while, join, join_texts, pieces, split_chars, string_of,
    texts,
};

verus! {

pub const TYPE_A: u16 = 1;

pub const TYPE_NS: u16 = 2;

pub const TYPE_CNAME: u16 = 5;

pub const TYPE_MX: u16 = 15;

pub const TYPE_TXT: u16 = 16;

pub const TYPE_AAAA: u16 = 28;

pub const CLASS_IN: u16 = 1;

/// The number of compression pointers that are followed in one name.
pub const MAX_JUMPS: usize = 20;

/// The labels of a host name: its parts between dots that are not empty.
pub open spec fn labels(name: Seq<char>) -> Seq<Seq<char>> {
    pieces(drop_while(name, |c: char| c == '.'), '.').filter(|l: Seq<char>| l.len() > 0)
}

/// A label on the wire: the low byte of its length in bytes, and its bytes.
pub open spec fn label_bytes(label: Seq<char>) -> Seq<u8> {
    let bytes = encode_utf8(label);
    seq![(bytes.len() % 256) as u8] + bytes
}

/// Labels on the wire, one after the other.
pub open spec fn labels_bytes(ls: Seq<Seq<char>>) -> Seq<u8>
    decreases ls.len(),
{
    if ls.len() == 0 {
        Seq::empty()
    } else {
        labels_bytes(ls.drop_last()) + label_bytes(ls.last())
    }
}

/// The header of a query with one question that asks for recursion.
pub open spec fn query_header(id: u16) -> Seq<u8> {
    be16(id) + be16(0x0100) + be16(1) + be16(0) + be16(0) + be16(0)
}

/// A query for the records of type `qtype` of a host.
pub open spec fn query_bytes(id: u16, name: Seq<char>, qtype: u16) -> Seq<u8> {
    query_header(id) + labels_bytes(labels(name)) + seq![0u8] + be16(qtype) + be16(1)
}

/// Builds a recursive query for `name` (a host name, with or without a dot at
/// its end) that asks for records of type `qtype`.
pub fn build_query(id: u16, name: &str, qtype: u16) -> (r: Vec<u8>)
    ensures
        r@ == query_bytes(id, name@, qtype),
{
    let mut buf: Vec<u8> = Vec::new();
    push_be16(&mut buf, id);
    push_be16(&mut buf, 0x0100);
    push_be16(&mut buf, 1);
    push_be16(&mut buf, 0);
    push_be16(&mut buf, 0);
    push_be16(&mut buf, 0);
    assert(buf@ == query_header(id));

    let parts = split_chars(&drop_char(&chars_of(name), '.'), '.');
    let ghost all = char_lists(parts@);
    let ghost keep = |l: Seq<char>| l.len() > 0;
    let mut i: usize = 0;
    reveal(Seq::filter);
    assert(labels_bytes(all.take(0).filter(keep)) == Seq::<u8>::empty());
    while i < parts.len()
        invariant
            i <= parts.len(),
            all == char_lists(parts@),
            keep == (|l: Seq<char>| l.len() > 0),
            buf@ == query_header(id) + labels_bytes(all.take(i as int).filter(keep)),
        decreases parts.len() - i,
    {
        proof {
            reveal(Seq::filter);
            assert(all.take(i + 1).drop_last() == all.take(i as int));
            assert(all.take(i + 1).last() == parts@[i as int]@);
        }
        if parts[i].len() > 0 {
            let label = string_of(&parts[i]);
            let bytes = label.as_str().as_bytes();
            let ghost before = all.take(i as int).filter(keep);
            proof {
                assert(before.push(label@).drop_last() == before);
            }
            buf.push((bytes.len() % 256) as u8);
            push_bytes(&mut buf, bytes);
            assert(buf@ == query_header(id) + labels_bytes(before) + label_bytes(label@));
        }
        i += 1;
    }
    assert(all.take(i as int) == all);
    buf.push(0);
    push_be16(&mut buf, qtype);
    push_be16(&mut buf, CLASS_IN);
    assert(buf@ == query_bytes(id, name@, qtype));
    buf
}

/// What a record says, by its type.
#[derive(Debug, Clone)]
pub enum RData {
    A(Ipv4Addr),
    Aaaa(Ipv6Addr),
    Cname(String),
    Ns(String),
    Mx { preference: u16, exchange: String },
    Txt(String),
    Other,
}

#[derive(Debug, Clone)]
pub struct Record {
    pub rtype: u16,
    pub rdata: RData,
}

/// What a record says, with addresses as their numbers and names as text.
pub enum RDataView {
    A(Ipv4Addr),
    Aaaa(Seq<u16>),
    Cname(Seq<char>),
    Ns(Seq<char>),
    Mx { preference: u16, exchange: Seq<char> },
    Txt(Seq<char>),
    Other,
}

pub struct RecordView {
    pub rtype: u16,
    pub rdata: RDataView,
}

impl View for RData {
    type V = RDataView;

    open spec fn view(&self) -> RDataView {
        match *self {
            RData::A(ip) => RDataView::A(ip),
            RData::Aaaa(ip) => RDataView::Aaaa(ip.segments@),
            RData::Cname(n) => RDataView::Cname(n@),
            RData::Ns(n) => RDataView::Ns(n@),
            RData::Mx { preference, exchange } => RDataView::Mx { preference, exchange: exchange@ },
            RData::Txt(t) => RDataView::Txt(t@),
            RData::Other => RDataView::Other,
        }
    }
}

impl View for Record {
    type V = RecordView;

    open spec fn view(&self) -> RecordView {
        RecordView { rtype: self.rtype, rdata: self.rdata@ }
    }
}

/// The models of the records in a list.
pub open spec fn record_views(v: Seq<Record>) -> Seq<RecordView> {
    v.map_values(|r: Record| r@)
}

/// The labels of the name that is read from position `cursor` on, after
/// `jumps` compression pointers. There is no name where the bytes end too
/// early or where more than `MAX_JUMPS` pointers would be followed.
pub open spec fn labels_at(buf: Seq<u8>, cursor: int, jumps: int) -> Option<Seq<Seq<char>>>
    decreases MAX_JUMPS - jumps, buf.len() - cursor,
{
    if cursor < 0 || cursor >= buf.len() {
        None
    } else if buf[cursor] == 0 {
        Some(Seq::empty())
    } else if buf[cursor] >= 0xC0 {
        if cursor + 1 >= buf.len() || jumps >= MAX_JUMPS {
            None
        } else {
            labels_at(buf, (buf[cursor] - 0xC0) * 256 + buf[cursor + 1], jumps + 1)
        }
    } else {
        let next = cursor + 1 + buf[cursor];
        if next > buf.len() {
            None
        } else {
            after(seq![text_of(buf.subrange(cursor + 1, next))], labels_at(buf, next, jumps))
        }
    }
}

/// `front` and then `rest`, where there is a rest.
pub open spec fn after<T>(front: Seq<T>, rest: Option<Seq<T>>) -> Option<Seq<T>> {
    match rest {
        Some(r) => Some(front + r),
        None => None,
    }
}

/// The position behind the name that begins at `cursor`: behind its end mark,
/// or behind its first compression pointer.
pub open spec fn name_end(buf: Seq<u8>, cursor: int) -> int
    decreases buf.len() + 256 - cursor,
{
    if cursor < 0 || cursor >= buf.len() || buf[cursor] == 0 {
        cursor + 1
    } else if buf[cursor] >= 0xC0 {
        cursor + 2
    } else {
        name_end(buf, cursor + 1 + buf[cursor])
    }
}

/// The name that begins at `pos`, and the position behind it.
pub open spec fn name_at(buf: Seq<u8>, pos: int) -> Option<(Seq<char>, int)> {
    match labels_at(buf, pos, 0) {
        Some(ls) => Some((join(ls, seq!['.']), name_end(buf, pos))),
        None => None,
    }
}

proof fn lemma_name_end(buf: Seq<u8>, cursor: int, jumps: int)
    requires
        labels_at(buf, cursor, jumps) is Some,
        0 <= jumps,
    ensures
        cursor < name_end(buf, cursor) <= buf.len(),
    decreases buf.len() - cursor,
{
    if 0 <= cursor < buf.len() && buf[cursor] != 0 && buf[cursor] < 0xC0 {
        lemma_name_end(buf, cursor + 1 + buf[cursor], jumps);
    }
}

/// Reads a name, compressed or not, that begins at `pos`. Gives the name with
/// dots between its labels, and the position behind it in the message: behind
/// the compression pointer, not behind the place that it points to.
pub fn read_name(buf: &[u8], pos: usize) -> (r: Option<(String, usize)>)
    ensures
        match r {
            Some((name, next)) => name_at(buf@, pos as int) == Some((name@, next as int)) && pos
                < next <= buf@.len(),
            None => name_at(buf@, pos as int) is None,
        },
{
    let mut found: Vec<String> = Vec::new();
    let mut cursor: usize = pos;
    let mut end_pos: Option<usize> = None;
    let mut jumps: usize = 0;
    assert(after(texts(found@), labels_at(buf@, pos as int, 0)) == labels_at(buf@, pos as int, 0)) by {
        if let Some(ls) = labels_at(buf@, pos as int, 0) {
            assert(texts(found@) + ls == ls);
        }
    }
    loop
        invariant
            jumps <= MAX_JUMPS,
            labels_at(buf@, pos as int, 0) == after(
                texts(found@),
                labels_at(buf@, cursor as int, jumps as int),
            ),
            match end_pos {
                Some(e) => name_end(buf@, pos as int) == e,
                None => name_end(buf@, pos as int) == name_end(buf@, cursor as int),
            },
        decreases MAX_JUMPS - jumps, buf@.len() - cursor,
    {
        if cursor >= buf.len() {
            return None;
        }
        let len: u8 = buf[cursor];
        if len == 0 {
            let end: usize = match end_pos {
                Some(e) => e,
                None => cursor + 1,
            };
            proof {
                reveal_strlit(".");
                assert("."@ == seq!['.']);
                assert(texts(found@) + Seq::<Seq<char>>::empty() == texts(found@));
                lemma_name_end(buf@, pos as int, 0);
            }
            return Some((join_texts(&found, "."), end));
        }
        if len >= 0xC0 {
            if cursor + 1 >= buf.len() {
                return None;
            }
            if jumps >= MAX_JUMPS {
                return None;
            }
            let target: usize = (len as usize - 0xC0) * 256 + buf[cursor + 1] as usize;
            if end_pos.is_none() {
                end_pos = Some(cursor + 2);
            }
            jumps += 1;
            cursor = target;
        } else {
            let label_len: usize = len as usize;
            let start: usize = cursor + 1;
            if label_len > buf.len() - start {
                return None;
            }
            let label = lossy_text(vstd::slice::slice_subrange(buf, start, start + label_len));
            let ghost old_found = texts(found@);
            let ghost rest = labels_at(buf@, start + label_len, jumps as int);
            found.push(label);
            proof {
                assert(texts(found@) == old_found + seq![label@]);
                if let Some(ls) = rest {
                    assert(old_found + (seq![label@] + ls) == texts(found@) + ls);
                }
            }
            cursor = start + label_len;
        }
    }
}

/// The position behind `n` questions that begin at `pos`.
pub open spec fn questions_end(buf: Seq<u8>, pos: int, n: nat) -> Option<int>
    decreases n,
{
    if n == 0 {
        Some(pos)
    } else {
        match name_at(buf, pos) {
            Some((_, next)) if next + 4 <= buf.len() => questions_end(buf, next + 4, (n - 1) as nat),
            _ => None,
        }
    }
}

/// The character strings between `p` and `end`, as one text. A string that
/// would reach behind `end` is left out, with what follows it.
pub open spec fn strings_text(buf: Seq<u8>, p: int, end: int) -> Seq<char>
    decreases end - p,
{
    if p >= end || p + 1 + buf[p] > end {
        Seq::empty()
    } else {
        text_of(buf.subrange(p + 1, p + 1 + buf[p])) + strings_text(buf, p + 1 + buf[p], end)
    }
}

/// What a record of type `rtype` with `len` bytes of data at `start` says.
pub open spec fn rdata_at(buf: Seq<u8>, rtype: u16, start: int, len: int) -> RDataView {
    if rtype == TYPE_A && len == 4 {
        RDataView::A(
            Ipv4Addr { a: buf[start], b: buf[start + 1], c: buf[start + 2], d: buf[start + 3] },
        )
    } else if rtype == TYPE_AAAA && len == 16 {
        RDataView::Aaaa(Seq::new(8, |i: int| be16_at(buf, start + 2 * i)))
    } else if rtype == TYPE_CNAME {
        match name_at(buf, start) {
            Some((name, _)) => RDataView::Cname(name),
            None => RDataView::Other,
        }
    } else if rtype == TYPE_NS {
        match name_at(buf, start) {
            Some((name, _)) => RDataView::Ns(name),
            None => RDataView::Other,
        }
    } else if rtype == TYPE_MX && len >= 2 {
        match name_at(buf, start + 2) {
            Some((name, _)) => RDataView::Mx { preference: be16_at(buf, start), exchange: name },
            None => RDataView::Other,
        }
    } else if rtype == TYPE_TXT {
        RDataView::Txt(strings_text(buf, start, start + len))
    } else {
        RDataView::Other
    }
}

/// At most `n` records that begin at `pos`. A record that the message breaks
/// off in ends the list; a record whose name cannot be read spoils it.
pub open spec fn records_at(buf: Seq<u8>, pos: int, n: nat) -> Option<Seq<RecordView>>
    decreases n,
{
    if n == 0 {
        Some(Seq::empty())
    } else {
        match name_at(buf, pos) {
            None => None,
            Some((_, fixed)) => if fixed + 10 > buf.len() {
                Some(Seq::empty())
            } else {
                let len = be16_at(buf, fixed + 8) as int;
                let start = fixed + 10;
                if start + len > buf.len() {
                    Some(Seq::empty())
                } else {
                    let rtype = be16_at(buf, fixed);
                    after(
                        seq![RecordView { rtype, rdata: rdata_at(buf, rtype, start, len) }],
                        records_at(buf, start + len, (n - 1) as nat),
                    )
                }
            },
        }
    }
}

/// What a response to the query `id` says: nothing where it is no answer to
/// that query or cannot be trusted, no records where it reports an error, and
/// else the records of its answer section.
pub open spec fn response(buf: Seq<u8>, id: u16) -> Option<Seq<RecordView>> {
    if buf.len() < 12 || be16_at(buf, 0) != id {
        None
    } else if be16_at(buf, 2) % 16 != 0 {
        Some(Seq::empty())
    } else {
        match questions_end(buf, 12, be16_at(buf, 4) as nat) {
            None => None,
            Some(pos) => records_at(buf, pos, be16_at(buf, 6) as nat),
        }
    }
}

/// Reads the character strings between `start` and `end`.
fn read_strings(buf: &[u8], start: usize, end: usize) -> (r: String)
    requires
        start <= end <= buf@.len(),
    ensures
        r@ == strings_text(buf@, start as int, end as int),
{
    let mut text = String::new();
    let mut p: usize = start;
    while p < end
        invariant
            start <= p <= end <= buf@.len(),
            strings_text(buf@, start as int, end as int) == text@ + strings_text(
                buf@,
                p as int,
                end as int,
            ),
        decreases end - p,
    {
        let len: usize = buf[p] as usize;
        if len > end - p - 1 {
            assert(text@ + Seq::<char>::empty() == text@);
            return text;
        }
        let part = lossy_text(vstd::slice::slice_subrange(buf, p + 1, p + 1 + len));
        let ghost old_text = text@;
        let ghost rest = strings_text(buf@, p + 1 + len, end as int);
        text.append(part.as_str());
        assert(old_text + (part@ + rest) == text@ + rest);
        p = p + 1 + len;
    }
    assert(text@ + Seq::<char>::empty() == text@);
    text
}

/// Reads the data of one record.
fn read_rdata(buf: &[u8], rtype: u16, start: usize, len: usize) -> (r: RData)
    requires
        start + len <= buf@.len(),
    ensures
        r@ == rdata_at(buf@, rtype, start as int, len as int),
{
    assert(start + len <= buf.len());
    if rtype == TYPE_A && len == 4 {
        RData::A(Ipv4Addr::new(buf[start], buf[start + 1], buf[start + 2], buf[start + 3]))
    } else if rtype == TYPE_AAAA && len == 16 {
        let segments: [u16; 8] = [
            read_be16(buf, start),
            read_be16(buf, start + 2),
            read_be16(buf, start + 4),
            read_be16(buf, start + 6),
            read_be16(buf, start + 8),
            read_be16(buf, start + 10),
            read_be16(buf, start + 12),
            read_be16(buf, start + 14),
        ];
        assert(segments@ == Seq::new(8, |i: int| be16_at(buf@, start + 2 * i)));
        RData::Aaaa(Ipv6Addr { segments })
    } else if rtype == TYPE_CNAME {
        match read_name(buf, start) {
            Some((name, _)) => RData::Cname(name),
            None => RData::Other,
        }
    } else if rtype == TYPE_NS {
        match read_name(buf, start) {
            Some((name, _)) => RData::Ns(name),
            None => RData::Other,
        }
    } else if rtype == TYPE_MX && len >= 2 {
        let preference: u16 = read_be16(buf, start);
        match read_name(buf, start + 2) {
            Some((exchange, _)) => RData::Mx { preference, exchange },
            None => RData::Other,
        }
    } else if rtype == TYPE_TXT {
        RData::Txt(read_strings(buf, start, start + len))
    } else {
        RData::Other
    }
}

/// Reads a response datagram that should answer the query `expected_id`. Gives
/// no records for a response that reports an error (such as NXDOMAIN), and
/// `None` for a datagram that is too malformed to trust.
pub fn parse_response(buf: &[u8], expected_id: u16) -> (r: Option<Vec<Record>>)
    ensures
        match r {
            Some(records) => response(buf@, expected_id) == Some(record_views(records@)),
            None => response(buf@, expected_id) is None,
        },
{
    if buf.len() < 12 {
        return None;
    }
    if read_be16(buf, 0) != expected_id {
        return None;
    }
    let mut records: Vec<Record> = Vec::new();
    assert(record_views(records@) == Seq::<RecordView>::empty());
    if read_be16(buf, 2) % 16 != 0 {
        return Some(records);
    }
    let mut questions: u16 = read_be16(buf, 4);
    let mut answers: u16 = read_be16(buf, 6);
    let ghost all = answers as nat;
    let mut pos: usize = 12;
    while questions > 0
        invariant
            12 <= pos <= buf@.len(),
            questions_end(buf@, 12, be16_at(buf@, 4) as nat) == questions_end(
                buf@,
                pos as int,
                questions as nat,
            ),
            response(buf@, expected_id) == match questions_end(buf@, 12, be16_at(buf@, 4) as nat) {
                None => None,
                Some(p) => records_at(buf@, p, all),
            },
        decreases questions,
    {
        match read_name(buf, pos) {
            None => {
                return None;
            },
            Some((_, next)) => {
                if buf.len() - next < 4 {
                    return None;
                }
                pos = next + 4;
            },
        }
        questions -= 1;
    }
    proof {
        if let Some(rs) = records_at(buf@, pos as int, all) {
            assert(record_views(records@) + rs == rs);
        }
    }
    while answers > 0
        invariant
            pos <= buf@.len(),
            response(buf@, expected_id) == after(
                record_views(records@),
                records_at(buf@, pos as int, answers as nat),
            ),
        decreases answers,
    {
        match read_name(buf, pos) {
            None => {
                return None;
            },
            Some((_, fixed)) => {
                assert(record_views(records@) + Seq::<RecordView>::empty() == record_views(records@));
                if buf.len() - fixed < 10 {
                    return Some(records);
                }
                let rtype: u16 = read_be16(buf, fixed);
                let len: usize = read_be16(buf, fixed + 8) as usize;
                let start: usize = fixed + 10;
                if len > buf.len() - start {
                    return Some(records);
                }
                let record = Record { rtype, rdata: read_rdata(buf, rtype, start, len) };
                let ghost old_views = record_views(records@);
                let ghost rest = records_at(buf@, start + len, (answers - 1) as nat);
                records.push(record);
                proof {
                    assert(record_views(records@) == old_views + seq![record@]);
                    if let Some(rs) = rest {
                        assert(old_views + (seq![record@] + rs) == record_views(records@) + rs);
                    }
                }
                pos = start + len;
            },
        }
        answers -= 1;
    }
    assert(record_views(records@) + Seq::<RecordView>::empty() == record_views(records@));
    Some(records)
}

proof fn lemma_labels_bytes_front(ls: Seq<Seq<char>>)
    requires
        ls.len() > 0,
    ensures
        labels_bytes(ls) == label_bytes(ls[0]) + labels_bytes(ls.skip(1)),
    decreases ls.len(),
{
    if ls.len() == 1 {
        assert(ls.drop_last() == Seq::<Seq<char>>::empty());
        assert(ls.skip(1) == Seq::<Seq<char>>::empty());
        assert(labels_bytes(ls.drop_last()) == Seq::<u8>::empty());
        assert(labels_bytes(ls) == label_bytes(ls[0]) + labels_bytes(ls.skip(1)));
    } else {
        lemma_labels_bytes_front(ls.drop_last());
        assert(ls.drop_last().skip(1) == ls.skip(1).drop_last());
        assert(labels_bytes(ls) == label_bytes(ls[0]) + labels_bytes(ls.skip(1)));
    }
}

/// Labels that stand in a message, written one after the other and closed by
/// an end mark, are read back as they were written.
pub proof fn lemma_labels_read_back(before: Seq<u8>, ls: Seq<Seq<char>>, rest: Seq<u8>, jumps: int)
    requires
        forall|i: int| 0 <= i < ls.len() ==> 0 < encode_utf8(#[trigger] ls[i]).len() < 0xC0,
    ensures
        labels_at(before + labels_bytes(ls) + seq![0u8] + rest, before.len() as int, jumps) == Some(ls),
        name_end(before + labels_bytes(ls) + seq![0u8] + rest, before.len() as int) == before.len()
            + labels_bytes(ls).len() + 1,
    decreases ls.len(),
{
    let buf = before + labels_bytes(ls) + seq![0u8] + rest;
    let at = before.len() as int;
    if ls.len() == 0 {
        assert(buf[at] == 0);
        assert(ls == Seq::<Seq<char>>::empty());
    } else {
        lemma_labels_bytes_front(ls);
        let bytes = encode_utf8(ls[0]);
        let front = label_bytes(ls[0]);
        let next = at + 1 + bytes.len();
        assert(buf == (before + front) + labels_bytes(ls.skip(1)) + seq![0u8] + rest);
        assert(buf[at] == front[0]);
        assert(front[0] == bytes.len());
        assert(buf.subrange(at + 1, next) == bytes);
        law_text_reads_back(ls[0]);
        assert forall|i: int| 0 <= i < ls.skip(1).len() implies 0 < encode_utf8(
            #[trigger] ls.skip(1)[i],
        ).len() < 0xC0 by {
            assert(ls.skip(1)[i] == ls[i + 1]);
        }
        lemma_labels_read_back(before + front, ls.skip(1), rest, jumps);
        assert(seq![ls[0]] + ls.skip(1) == ls);
    }
}

/// Every label of a name is short enough to be told from a compression
/// pointer.
pub open spec fn labels_fit(name: Seq<char>) -> bool {
    forall|i: int| 0 <= i < labels(name).len() ==> encode_utf8(#[trigger] labels(name)[i]).len() < 0xC0
}

pub proof fn lemma_encoded_nonempty(s: Seq<char>)
    requires
        s.len() > 0,
    ensures
        encode_utf8(s).len() > 0,
{
    if encode_utf8(s).len() == 0 {
        vstd::utf8::encode_utf8_decode_utf8(s);
        assert(encode_utf8(s) == Seq::<u8>::empty());
        assert(vstd::utf8::decode_utf8(Seq::<u8>::empty()).len() == 0);
    }
}

/// The question of a query reads back as the labels that were asked for, with
/// dots between them, and the name ends right before the type.
pub proof fn law_query_names_the_host(id: u16, name: Seq<char>, qtype: u16)
    requires
        labels_fit(name),
    ensures
        name_at(query_bytes(id, name, qtype), 12) == Some(
            (join(labels(name), seq!['.']), query_bytes(id, name, qtype).len() - 4),
        ),
{
    let ls = labels(name);
    let rest = be16(qtype) + be16(1);
    let split = pieces(drop_while(name, |c: char| c == '.'), '.');
    assert forall|i: int| 0 <= i < ls.len() implies 0 < encode_utf8(#[trigger] ls[i]).len() < 0xC0 by {
        split.lemma_filter_pred(|l: Seq<char>| l.len() > 0, i);
        lemma_encoded_nonempty(ls[i]);
    }
    lemma_labels_read_back(query_header(id), ls, rest, 0);
    assert(query_bytes(id, name, qtype) == query_header(id) + labels_bytes(ls) + seq![0u8] + rest);
}

pub proof fn lemma_header(id: u16, flags: u16, questions: u16, answers: u16, rest: Seq<u8>)
    ensures
        ({
            let buf = be16(id) + be16(flags) + be16(questions) + be16(answers) + be16(0) + be16(0)
                + rest;
            &&& buf.len() == 12 + rest.len()
            &&& be16_at(buf, 0) == id
            &&& be16_at(buf, 2) == flags
            &&& be16_at(buf, 4) == questions
            &&& be16_at(buf, 6) == answers
        }),
{
    let buf = be16(id) + be16(flags) + be16(questions) + be16(answers) + be16(0) + be16(0) + rest;
    assert(buf[0] == be16(id)[0] && buf[1] == be16(id)[1]);
    assert(buf[2] == be16(flags)[0] && buf[3] == be16(flags)[1]);
    assert(buf[4] == be16(questions)[0] && buf[5] == be16(questions)[1]);
    assert(buf[6] == be16(answers)[0] && buf[7] == be16(answers)[1]);
}

pub proof fn lemma_one_question(buf: Seq<u8>, name: Seq<char>, next: int)
    requires
        name_at(buf, 12) == Some((name, next)),
        next + 4 <= buf.len(),
    ensures
        questions_end(buf, 12, 1) == Some(next + 4),
{
    reveal_with_fuel(questions_end, 2);
}

/// A query reads as a response without an error and without records to the
/// query itself.
pub proof fn law_query_is_an_empty_response(id: u16, name: Seq<char>, qtype: u16)
    requires
        labels_fit(name),
    ensures
        response(query_bytes(id, name, qtype), id) == Some(Seq::<RecordView>::empty()),
{
    let buf = query_bytes(id, name, qtype);
    let rest = labels_bytes(labels(name)) + seq![0u8] + be16(qtype) + be16(1);
    law_query_names_the_host(id, name, qtype);
    lemma_header(id, 0x0100, 1, 0, rest);
    assert(buf == query_header(id) + rest);
    lemma_one_question(buf, join(labels(name), seq!['.']), buf.len() - 4);
}

/// A datagram with another transaction id answers nothing.
pub proof fn law_other_id_answers_nothing(buf: Seq<u8>, id: u16)
    requires
        buf.len() >= 12,
        be16_at(buf, 0) != id,
    ensures
        response(buf, id) is None,
{
}

/// A response that reports an error has no records, and is not malformed,
/// whatever follows its header.
pub proof fn law_error_response_is_empty(buf: Seq<u8>, id: u16)
    requires
        buf.len() >= 12,
        be16_at(buf, 0) == id,
        be16_at(buf, 2) % 16 != 0,
    ensures
        response(buf, id) == Some(Seq::<RecordView>::empty()),
{
}

/// A response never has more records than its header announces.
pub proof fn law_no_more_records_than_announced(buf: Seq<u8>, id: u16)
    ensures
        response(buf, id) is Some ==> response(buf, id)->0.len() <= be16_at(buf, 6),
{
    if let Some(pos) = questions_end(buf, 12, be16_at(buf, 4) as nat) {
        lemma_records_bounded(buf, pos, be16_at(buf, 6) as nat);
    }
}

proof fn lemma_records_bounded(buf: Seq<u8>, pos: int, n: nat)
    ensures
        records_at(buf, pos, n) is Some ==> records_at(buf, pos, n)->0.len() <= n,
    decreases n,
{
    if n > 0 {
        if let Some((_, fixed)) = name_at(buf, pos) {
            lemma_records_bounded(buf, fixed + 10 + be16_at(buf, fixed + 8), (n - 1) as nat);
        }
    }
}

/// A compression pointer that points at itself stands for no name.
pub proof fn law_pointer_loop_is_no_name(buf: Seq<u8>, at: int)
    requires
        0 <= at,
        at + 1 < buf.len(),
        buf[at] >= 0xC0,
        (buf[at] - 0xC0) * 256 + buf[at + 1] == at,
    ensures
        name_at(buf, at) is None,
{
    lemma_pointer_loop(buf, at, 0);
}

proof fn lemma_pointer_loop(buf: Seq<u8>, at: int, jumps: int)
    requires
        0 <= at,
        at + 1 < buf.len(),
        buf[at] >= 0xC0,
        (buf[at] - 0xC0) * 256 + buf[at + 1] == at,
    ensures
        labels_at(buf, at, jumps) is None,
    decreases MAX_JUMPS - jumps,
{
    if jumps < MAX_JUMPS {
        lemma_pointer_loop(buf, at, jumps + 1);
    }
}

/// The header of a response without an error to a query with one question.
pub open spec fn response_header(id: u16, answers: u16) -> Seq<u8> {
    be16(id) + be16(0x8180) + be16(1) + be16(answers) + be16(0) + be16(0)
}

/// An A record whose name is a pointer to the name in the question.
pub open spec fn address_bytes(ip: Ipv4Addr, ttl_high: u16, ttl_low: u16) -> Seq<u8> {
    seq![0xC0u8, 12u8] + be16(TYPE_A) + be16(CLASS_IN) + be16(ttl_high) + be16(ttl_low) + be16(4)
        + seq![ip.a, ip.b, ip.c, ip.d]
}

/// A records one after the other.
pub open spec fn addresses_bytes(ips: Seq<Ipv4Addr>, ttl_high: u16, ttl_low: u16) -> Seq<u8>
    decreases ips.len(),
{
    if ips.len() == 0 {
        Seq::empty()
    } else {
        address_bytes(ips[0], ttl_high, ttl_low) + addresses_bytes(ips.skip(1), ttl_high, ttl_low)
    }
}

/// The records that addresses stand in.
pub open spec fn address_records(ips: Seq<Ipv4Addr>) -> Seq<RecordView> {
    ips.map_values(|ip: Ipv4Addr| RecordView { rtype: TYPE_A, rdata: RDataView::A(ip) })
}

/// A response with A records for the name that was asked for.
pub open spec fn address_response(
    id: u16,
    name: Seq<char>,
    ips: Seq<Ipv4Addr>,
    ttl_high: u16,
    ttl_low: u16,
) -> Seq<u8> {
    response_header(id, ips.len() as u16) + labels_bytes(labels(name)) + seq![0u8] + be16(TYPE_A)
        + be16(CLASS_IN) + addresses_bytes(ips, ttl_high, ttl_low)
}

/// Whether an A record for an address stands at a position, its name a pointer
/// to the name in the question.
spec fn address_at(buf: Seq<u8>, at: int, ip: Ipv4Addr) -> bool {
    &&& 0 <= at
    &&& at + 16 <= buf.len()
    &&& buf[at] == 0xC0
    &&& buf[at + 1] == 12
    &&& be16_at(buf, at + 2) == TYPE_A
    &&& be16_at(buf, at + 10) == 4
    &&& buf[at + 12] == ip.a
    &&& buf[at + 13] == ip.b
    &&& buf[at + 14] == ip.c
    &&& buf[at + 15] == ip.d
}

proof fn lemma_address_bytes(ip: Ipv4Addr, ttl_high: u16, ttl_low: u16)
    ensures
        address_bytes(ip, ttl_high, ttl_low).len() == 16,
        address_at(address_bytes(ip, ttl_high, ttl_low), 0, ip),
{
    let one = address_bytes(ip, ttl_high, ttl_low);
    assert(one[2] == be16(TYPE_A)[0] && one[3] == be16(TYPE_A)[1]);
    assert(one[10] == be16(4)[0] && one[11] == be16(4)[1]);
}

proof fn lemma_address_inside(front: Seq<u8>, one: Seq<u8>, rest: Seq<u8>, ip: Ipv4Addr)
    requires
        one.len() == 16,
        address_at(one, 0, ip),
    ensures
        address_at(front + one + rest, front.len() as int, ip),
{
    let buf = front + one + rest;
    let at = front.len() as int;
    assert forall|j: int| 0 <= j < 16 implies #[trigger] one[j] == buf[at + j] by {}
    assert(one[0] == buf[at] && one[1] == buf[at + 1]);
    assert(one[2] == buf[at + 2] && one[3] == buf[at + 3]);
    assert(one[10] == buf[at + 10] && one[11] == buf[at + 11]);
    assert(one[12] == buf[at + 12] && one[13] == buf[at + 13]);
    assert(one[14] == buf[at + 14] && one[15] == buf[at + 15]);
}

proof fn lemma_address_read(buf: Seq<u8>, at: int, ip: Ipv4Addr, n: nat)
    requires
        address_at(buf, at, ip),
        labels_at(buf, 12, 1) is Some,
        n > 0,
    ensures
        records_at(buf, at, n) == after(
            seq![RecordView { rtype: TYPE_A, rdata: RDataView::A(ip) }],
            records_at(buf, at + 16, (n - 1) as nat),
        ),
{
    assert(labels_at(buf, at, 0) == labels_at(buf, 12, 1));
    assert(name_end(buf, at) == at + 2);
    assert(rdata_at(buf, TYPE_A, at + 12, 4) == RDataView::A(ip));
}

proof fn lemma_addresses_read_back(
    front: Seq<u8>,
    ips: Seq<Ipv4Addr>,
    ttl_high: u16,
    ttl_low: u16,
)
    requires
        labels_at(front + addresses_bytes(ips, ttl_high, ttl_low), 12, 1) is Some,
    ensures
        records_at(
            front + addresses_bytes(ips, ttl_high, ttl_low),
            front.len() as int,
            ips.len(),
        ) == Some(address_records(ips)),
    decreases ips.len(),
{
    let buf = front + addresses_bytes(ips, ttl_high, ttl_low);
    let at = front.len() as int;
    if ips.len() == 0 {
        assert(address_records(ips) == Seq::<RecordView>::empty());
    } else {
        let ip = ips[0];
        let one = address_bytes(ip, ttl_high, ttl_low);
        let rest = addresses_bytes(ips.skip(1), ttl_high, ttl_low);
        assert(buf == front + one + rest);
        lemma_address_bytes(ip, ttl_high, ttl_low);
        lemma_address_inside(front, one, rest, ip);
        lemma_address_read(buf, at, ip, ips.len());
        lemma_addresses_read_back(front + one, ips.skip(1), ttl_high, ttl_low);
        let record = RecordView { rtype: TYPE_A, rdata: RDataView::A(ip) };
        assert(seq![record] + address_records(ips.skip(1)) == address_records(ips));
    }
}

/// A response that was written with addresses is read back as these addresses,
/// in order, though each record only points to the name in the question.
pub proof fn law_addresses_read_back(
    id: u16,
    name: Seq<char>,
    ips: Seq<Ipv4Addr>,
    ttl_high: u16,
    ttl_low: u16,
)
    requires
        labels_fit(name),
        ips.len() <= u16::MAX,
    ensures
        response(address_response(id, name, ips, ttl_high, ttl_low), id) == Some(
            address_records(ips),
        ),
{
    let buf = address_response(id, name, ips, ttl_high, ttl_low);
    let ls = labels(name);
    let head = response_header(id, ips.len() as u16);
    let answers = addresses_bytes(ips, ttl_high, ttl_low);
    let rest = be16(TYPE_A) + be16(CLASS_IN) + answers;
    let front = head + labels_bytes(ls) + seq![0u8] + be16(TYPE_A) + be16(CLASS_IN);
    let split = pieces(drop_while(name, |c: char| c == '.'), '.');
    assert forall|i: int| 0 <= i < ls.len() implies 0 < encode_utf8(#[trigger] ls[i]).len()
        < 0xC0 by {
        split.lemma_filter_pred(|l: Seq<char>| l.len() > 0, i);
        lemma_encoded_nonempty(ls[i]);
    }
    assert(head.len() == 12);
    lemma_labels_read_back(head, ls, rest, 0);
    lemma_labels_read_back(head, ls, rest, 1);
    assert(buf == head + labels_bytes(ls) + seq![0u8] + rest);
    assert(buf == front + answers);
    lemma_addresses_read_back(front, ips, ttl_high, ttl_low);
    lemma_header(id, 0x8180, 1, ips.len() as u16, labels_bytes(ls) + seq![0u8] + rest);
    assert(buf == head + (labels_bytes(ls) + seq![0u8] + rest));
    lemma_one_question(buf, join(ls, seq!['.']), front.len() - 4);
}

} // verus!
