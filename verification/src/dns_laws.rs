//! What holds of DNS messages that were written and are read back.
use vstd::prelude::*;
use vstd::utf8::encode_utf8;

use crate::dns_wire::{
    after, label_bytes, labels, labels_at, labels_bytes, labels_fit,
    lemma_encoded_nonempty, lemma_labels_read_back, lemma_one_question, name_end,
    query_bytes, questions_end, rdata_at, records_at, response, strings_text, RDataView,
    RecordView,
};
use crate::net::Ipv4Addr;
use crate::octets::{be16, be16_at, law_text_reads_back};
use crate::text::{drop_while, join, pieces};
use crate::text_laws::{
    law_dropping_ends_at_the_last_other, law_joined_pieces_split_again,
};

verus! {

/// The two bytes of a number are its high part and its low part.
pub proof fn law_the_high_byte_comes_first(n: u16)
    ensures
        be16(n).len() == 2,
        be16(n)[0] * 256 + be16(n)[1] == n,
{
}

/// An answer that a server writes: names as their labels, text as its
/// character strings.
pub enum Answer {
    Address(Ipv4Addr),
    LongAddress(Seq<u16>),
    Alias(Seq<Seq<char>>),
    NameServer(Seq<Seq<char>>),
    MailServer(u16, Seq<Seq<char>>),
    Text(Seq<Seq<char>>),
}

/// Whether labels can be written: none is empty, and each is short enough to
/// be told from a compression pointer.
pub open spec fn writable(ls: Seq<Seq<char>>) -> bool {
    forall|i: int| 0 <= i < ls.len() ==> 0 < encode_utf8(#[trigger] ls[i]).len() < 0xC0
}

/// Character strings on the wire: each behind a byte with its length.
pub open spec fn strings_bytes(ts: Seq<Seq<char>>) -> Seq<u8>
    decreases ts.len(),
{
    if ts.len() == 0 {
        Seq::empty()
    } else {
        seq![encode_utf8(ts[0]).len() as u8] + encode_utf8(ts[0]) + strings_bytes(ts.skip(1))
    }
}

/// A name on the wire: each label behind a byte with its length, and an end
/// mark.
pub open spec fn name_bytes(ls: Seq<Seq<char>>) -> Seq<u8> {
    labels_bytes(ls) + seq![0u8]
}

impl Answer {
    /// The number of the record type.
    pub open spec fn number(self) -> u16 {
        match self {
            Answer::Address(_) => 1,
            Answer::NameServer(_) => 2,
            Answer::Alias(_) => 5,
            Answer::MailServer(_, _) => 15,
            Answer::Text(_) => 16,
            Answer::LongAddress(_) => 28,
        }
    }

    /// The data of the record.
    pub open spec fn data(self) -> Seq<u8> {
        match self {
            Answer::Address(ip) => seq![ip.a, ip.b, ip.c, ip.d],
            Answer::LongAddress(segments) => Seq::new(
                16,
                |k: int|
                    if k % 2 == 0 {
                        (segments[k / 2] / 256) as u8
                    } else {
                        (segments[k / 2] % 256) as u8
                    },
            ),
            Answer::Alias(ls) => name_bytes(ls),
            Answer::NameServer(ls) => name_bytes(ls),
            Answer::MailServer(preference, ls) => be16(preference) + name_bytes(ls),
            Answer::Text(ts) => strings_bytes(ts),
        }
    }

    /// Whether the answer can be written into a record.
    pub open spec fn fits(self) -> bool {
        &&& self.data().len() <= u16::MAX
        &&& match self {
            Answer::Address(_) => true,
            Answer::LongAddress(segments) => segments.len() == 8,
            Answer::Alias(ls) => writable(ls),
            Answer::NameServer(ls) => writable(ls),
            Answer::MailServer(_, ls) => writable(ls),
            Answer::Text(ts) => forall|i: int|
                0 <= i < ts.len() ==> encode_utf8(#[trigger] ts[i]).len() < 256,
        }
    }

    /// What the answer says: a name has dots between its labels, and text is
    /// its strings one after the other.
    pub open spec fn meaning(self) -> RDataView {
        match self {
            Answer::Address(ip) => RDataView::A(ip),
            Answer::LongAddress(segments) => RDataView::Aaaa(segments),
            Answer::Alias(ls) => RDataView::Cname(join(ls, seq!['.'])),
            Answer::NameServer(ls) => RDataView::Ns(join(ls, seq!['.'])),
            Answer::MailServer(preference, ls) => RDataView::Mx {
                preference,
                exchange: join(ls, seq!['.']),
            },
            Answer::Text(ts) => RDataView::Txt(ts.flatten()),
        }
    }

    /// The record of the answer.
    pub open spec fn record(self) -> RecordView {
        RecordView { rtype: self.number(), rdata: self.meaning() }
    }
}

/// What stands in front of the data of a record: a pointer to the name in the
/// question, the type, the class, the time to live and the length.
pub open spec fn record_head(number: u16, ttl_high: u16, ttl_low: u16, len: u16) -> Seq<u8> {
    seq![0xC0u8, 12u8] + be16(number) + be16(1) + be16(ttl_high) + be16(ttl_low) + be16(len)
}

/// Answers one after the other.
pub open spec fn answers_bytes(answers: Seq<Answer>, ttl_high: u16, ttl_low: u16) -> Seq<u8>
    decreases answers.len(),
{
    if answers.len() == 0 {
        Seq::empty()
    } else {
        record_head(answers[0].number(), ttl_high, ttl_low, answers[0].data().len() as u16)
            + answers[0].data() + answers_bytes(answers.skip(1), ttl_high, ttl_low)
    }
}

/// A response with answers to the query for a name: its flags report no error
/// if their last four bits are zero, and whatever follows the answers is of no
/// account.
pub open spec fn response_bytes(
    id: u16,
    flags: u16,
    name: Seq<char>,
    qtype: u16,
    answers: Seq<Answer>,
    ttl_high: u16,
    ttl_low: u16,
    others: (u16, u16),
    tail: Seq<u8>,
) -> Seq<u8> {
    response_head(id, flags, answers.len() as u16, others) + name_bytes(labels(name)) + be16(qtype)
        + be16(1) + answers_bytes(answers, ttl_high, ttl_low) + tail
}

/// The header of a response to one question: id, flags, and the numbers of
/// questions, answers and other records.
pub open spec fn response_head(id: u16, flags: u16, answers: u16, others: (u16, u16)) -> Seq<u8> {
    be16(id) + be16(flags) + be16(1) + be16(answers) + be16(others.0) + be16(others.1)
}

proof fn lemma_response_head(
    id: u16,
    flags: u16,
    answers: u16,
    others: (u16, u16),
    rest: Seq<u8>,
)
    ensures
        ({
            let buf = response_head(id, flags, answers, others) + rest;
            &&& buf.len() == 12 + rest.len()
            &&& be16_at(buf, 0) == id
            &&& be16_at(buf, 2) == flags
            &&& be16_at(buf, 4) == 1
            &&& be16_at(buf, 6) == answers
        }),
{
    let buf = response_head(id, flags, answers, others) + rest;
    assert(buf[0] == be16(id)[0] && buf[1] == be16(id)[1]);
    assert(buf[2] == be16(flags)[0] && buf[3] == be16(flags)[1]);
    assert(buf[4] == be16(1)[0] && buf[5] == be16(1)[1]);
    assert(buf[6] == be16(answers)[0] && buf[7] == be16(answers)[1]);
}

proof fn lemma_record_head(
    front: Seq<u8>,
    number: u16,
    ttl_high: u16,
    ttl_low: u16,
    len: u16,
    rest: Seq<u8>,
)
    ensures
        ({
            let head = record_head(number, ttl_high, ttl_low, len);
            let buf = front + head + rest;
            let at = front.len() as int;
            &&& head.len() == 12
            &&& buf.len() == at + 12 + rest.len()
            &&& buf[at] == 0xC0
            &&& buf[at + 1] == 12
            &&& be16_at(buf, at + 2) == number
            &&& be16_at(buf, at + 10) == len
        }),
{
    let head = record_head(number, ttl_high, ttl_low, len);
    let buf = front + head + rest;
    let at = front.len() as int;
    assert(head.len() == 12);
    assert(buf[at] == head[0] && buf[at + 1] == head[1]);
    assert(buf[at + 2] == head[2] && buf[at + 3] == head[3]);
    assert(buf[at + 10] == head[10] && buf[at + 11] == head[11]);
    assert(head[2] == be16(number)[0] && head[3] == be16(number)[1]);
    assert(head[10] == be16(len)[0] && head[11] == be16(len)[1]);
}

proof fn lemma_name_data(before: Seq<u8>, ls: Seq<Seq<char>>, rest: Seq<u8>)
    requires
        writable(ls),
    ensures
        labels_at(before + name_bytes(ls) + rest, before.len() as int, 0) == Some(ls),
{
    lemma_labels_read_back(before, ls, rest, 0);
    assert(before + name_bytes(ls) + rest == before + labels_bytes(ls) + seq![0u8] + rest);
}

proof fn lemma_strings_data(before: Seq<u8>, ts: Seq<Seq<char>>, rest: Seq<u8>)
    requires
        forall|i: int| 0 <= i < ts.len() ==> encode_utf8(#[trigger] ts[i]).len() < 256,
    ensures
        strings_text(
            before + strings_bytes(ts) + rest,
            before.len() as int,
            (before.len() + strings_bytes(ts).len()) as int,
        ) == ts.flatten(),
    decreases ts.len(),
{
    let buf = before + strings_bytes(ts) + rest;
    let at = before.len() as int;
    if ts.len() > 0 {
        let bytes = encode_utf8(ts[0]);
        let one = seq![bytes.len() as u8] + bytes;
        let tail = ts.skip(1);
        assert forall|i: int| 0 <= i < tail.len() implies encode_utf8(#[trigger] tail[i]).len()
            < 256 by {
            assert(tail[i] == ts[i + 1]);
        }
        lemma_strings_data(before + one, tail, rest);
        assert(buf == (before + one) + strings_bytes(tail) + rest);
        assert(buf[at] == one[0]);
        assert(buf.subrange(at + 1, at + 1 + bytes.len()) == bytes);
        law_text_reads_back(ts[0]);
        assert(ts.drop_first() == tail);
    }
}

/// The data of an answer is read as what the answer says, wherever it stands.
proof fn lemma_answer_data(before: Seq<u8>, a: Answer, rest: Seq<u8>)
    requires
        a.fits(),
    ensures
        rdata_at(
            before + a.data() + rest,
            a.number(),
            before.len() as int,
            a.data().len() as int,
        ) == a.meaning(),
{
    let buf = before + a.data() + rest;
    let at = before.len() as int;
    assert forall|k: int| 0 <= k < a.data().len() implies #[trigger] a.data()[k] == buf[at + k] by {}
    match a {
        Answer::Address(ip) => {
            let d = a.data();
            assert(d[0] == buf[at] && d[1] == buf[at + 1] && d[2] == buf[at + 2] && d[3] == buf[at
                + 3]);
        },
        Answer::LongAddress(segments) => {
            let d = a.data();
            assert forall|i: int| 0 <= i < 8 implies be16_at(buf, at + 2 * i) == #[trigger]
                segments[i] by {
                assert(d[2 * i] == buf[at + 2 * i]);
                assert(d[2 * i + 1] == buf[at + (2 * i + 1)]);
            }
            assert(Seq::new(8, |i: int| be16_at(buf, at + 2 * i)) =~= segments);
        },
        Answer::Alias(ls) => lemma_name_data(before, ls, rest),
        Answer::NameServer(ls) => lemma_name_data(before, ls, rest),
        Answer::MailServer(preference, ls) => {
            lemma_name_data(before + be16(preference), ls, rest);
            assert(buf == before + be16(preference) + name_bytes(ls) + rest);
            let d = a.data();
            assert(d[0] == be16(preference)[0] && d[1] == be16(preference)[1]);
            assert(d[0] == buf[at] && d[1] == buf[at + 1]);
        },
        Answer::Text(ts) => lemma_strings_data(before, ts, rest),
    }
}

proof fn lemma_answers_read_back(
    front: Seq<u8>,
    answers: Seq<Answer>,
    ttl_high: u16,
    ttl_low: u16,
    tail: Seq<u8>,
)
    requires
        forall|i: int| 0 <= i < answers.len() ==> (#[trigger] answers[i]).fits(),
        labels_at(front + answers_bytes(answers, ttl_high, ttl_low) + tail, 12, 1) is Some,
    ensures
        records_at(
            front + answers_bytes(answers, ttl_high, ttl_low) + tail,
            front.len() as int,
            answers.len(),
        ) == Some(answers.map_values(|a: Answer| a.record())),
    decreases answers.len(),
{
    let buf = front + answers_bytes(answers, ttl_high, ttl_low) + tail;
    let at = front.len() as int;
    let records = answers.map_values(|a: Answer| a.record());
    if answers.len() == 0 {
        assert(records == Seq::<RecordView>::empty());
    } else {
        let a = answers[0];
        let later = answers.skip(1);
        let len = a.data().len() as u16;
        let head = record_head(a.number(), ttl_high, ttl_low, len);
        let rest = answers_bytes(later, ttl_high, ttl_low) + tail;
        assert(a.fits());
        lemma_record_head(front, a.number(), ttl_high, ttl_low, len, a.data() + rest);
        assert(buf =~= front + head + (a.data() + rest));
        lemma_answer_data(front + head, a, rest);
        assert(buf =~= (front + head) + a.data() + rest);
        assert(labels_at(buf, at, 0) == labels_at(buf, 12, 1));
        assert(name_end(buf, at) == at + 2);
        assert forall|i: int| 0 <= i < later.len() implies (#[trigger] later[i]).fits() by {
            assert(later[i] == answers[i + 1]);
        }
        let done = front + head + a.data();
        assert(buf =~= done + answers_bytes(later, ttl_high, ttl_low) + tail);
        lemma_answers_read_back(done, later, ttl_high, ttl_low, tail);
        let others = later.map_values(|a: Answer| a.record());
        assert(records_at(buf, at, answers.len()) == after(
            seq![a.record()],
            records_at(buf, at + 12 + len, (answers.len() - 1) as nat),
        ));
        assert(seq![a.record()] + others == records);
    }
}

/// A response that was written with any answers of any kinds reads back as
/// these answers, in order: each as a record of its own kind that says what was
/// written. What follows the answers, and flags that report no error, change
/// nothing.
pub proof fn law_answers_read_back(
    id: u16,
    flags: u16,
    name: Seq<char>,
    qtype: u16,
    answers: Seq<Answer>,
    ttl_high: u16,
    ttl_low: u16,
    others: (u16, u16),
    tail: Seq<u8>,
)
    requires
        flags % 16 == 0,
        labels_fit(name),
        answers.len() <= u16::MAX,
        forall|i: int| 0 <= i < answers.len() ==> (#[trigger] answers[i]).fits(),
    ensures
        response(
            response_bytes(id, flags, name, qtype, answers, ttl_high, ttl_low, others, tail),
            id,
        ) == Some(answers.map_values(|a: Answer| a.record())),
{
    let buf = response_bytes(id, flags, name, qtype, answers, ttl_high, ttl_low, others, tail);
    let ls = labels(name);
    let head = response_head(id, flags, answers.len() as u16, others);
    let body = answers_bytes(answers, ttl_high, ttl_low);
    let rest = be16(qtype) + be16(1) + body + tail;
    let front = head + name_bytes(ls) + be16(qtype) + be16(1);
    let split = pieces(drop_while(name, |c: char| c == '.'), '.');
    assert forall|i: int| 0 <= i < ls.len() implies 0 < encode_utf8(#[trigger] ls[i]).len()
        < 0xC0 by {
        split.lemma_filter_pred(|l: Seq<char>| l.len() > 0, i);
        lemma_encoded_nonempty(ls[i]);
    }
    assert(head.len() == 12);
    lemma_labels_read_back(head, ls, rest, 0);
    lemma_labels_read_back(head, ls, rest, 1);
    assert(buf =~= head + labels_bytes(ls) + seq![0u8] + rest);
    assert(buf =~= front + body + tail);
    lemma_answers_read_back(front, answers, ttl_high, ttl_low, tail);
    lemma_response_head(id, flags, answers.len() as u16, others, name_bytes(ls) + rest);
    assert(buf =~= head + (name_bytes(ls) + rest));
    lemma_one_question(buf, join(ls, seq!['.']), front.len() - 4);
}

/// A host name that was written with dots between its labels, with or without
/// a dot at its end, has these labels.
pub proof fn law_labels_stand_between_dots(ls: Seq<Seq<char>>)
    requires
        ls.len() > 0,
        forall|i: int| 0 <= i < ls.len() ==> (#[trigger] ls[i]).len() > 0 && !ls[i].contains('.'),
    ensures
        labels(join(ls, seq!['.'])) == ls,
        labels(join(ls, seq!['.']).push('.')) == ls,
{
    let name = join(ls, seq!['.']);
    let dot = |c: char| c == '.';
    let keep = |l: Seq<char>| l.len() > 0;
    law_joined_pieces_split_again(ls, '.');
    lemma_name_ends_in_its_last_label(ls);
    law_dropping_ends_at_the_last_other(name, dot);
    let n = drop_while(name, dot).len() as int;
    if n < name.len() {
        assert(dot(name[name.len() - 1]));
        assert(ls.last().contains(ls.last()[ls.last().len() - 1]));
    }
    assert(drop_while(name, dot) == name);
    assert(name.push('.').drop_last() == name);
    assert(dot(name.push('.').last()));
    assert(drop_while(name.push('.'), dot) == name);
    lemma_nothing_filtered(ls, keep);
}

proof fn lemma_name_ends_in_its_last_label(ls: Seq<Seq<char>>)
    requires
        ls.len() > 0,
        ls.last().len() > 0,
    ensures
        join(ls, seq!['.']).len() > 0,
        join(ls, seq!['.']).last() == ls.last().last(),
{
    if ls.len() > 1 {
        let most = join(ls.drop_last(), seq!['.']) + seq!['.'];
        assert(join(ls, seq!['.']) == most + ls.last());
    }
}

proof fn lemma_nothing_filtered<T>(s: Seq<T>, p: spec_fn(T) -> bool)
    requires
        forall|i: int| 0 <= i < s.len() ==> p(#[trigger] s[i]),
    ensures
        s.filter(p) == s,
    decreases s.len(),
{
    reveal(Seq::filter);
    if s.len() > 0 {
        let front = s.drop_last();
        assert forall|i: int| 0 <= i < front.len() implies p(#[trigger] front[i]) by {
            assert(front[i] == s[i]);
        }
        lemma_nothing_filtered(front, p);
        assert(p(s[s.len() - 1]));
        assert(front.push(s.last()) == s);
    }
}

/// A query begins with its id and asks one question, with recursion, that ends
/// in the type of record asked for.
pub proof fn law_a_query_asks_what_it_was_built_for(id: u16, name: Seq<char>, qtype: u16)
    ensures
        ({
            let q = query_bytes(id, name, qtype);
            &&& q.len() >= 17
            &&& q[0] * 256 + q[1] == id
            &&& q[2] == 1
            &&& q[3] == 0
            &&& q[4] == 0
            &&& q[5] == 1
            &&& forall|k: int| 6 <= k < 12 ==> #[trigger] q[k] == 0
            &&& q[q.len() - 5] == 0
            &&& q[q.len() - 4] * 256 + q[q.len() - 3] == qtype
            &&& q[q.len() - 2] == 0
            &&& q[q.len() - 1] == 1
        }),
{
    let q = query_bytes(id, name, qtype);
    let mid = labels_bytes(labels(name));
    law_the_high_byte_comes_first(id);
    law_the_high_byte_comes_first(qtype);
    assert(q[0] == be16(id)[0] && q[1] == be16(id)[1]);
    assert(q[2] == be16(0x0100)[0] && q[3] == be16(0x0100)[1]);
    assert(q[4] == be16(1)[0] && q[5] == be16(1)[1]);
    let n = q.len() as int;
    assert(n == 12 + mid.len() + 5);
    assert(q[n - 4] == be16(qtype)[0] && q[n - 3] == be16(qtype)[1]);
    assert(q[n - 2] == be16(1)[0] && q[n - 1] == be16(1)[1]);
}

/// A host that is asked about by its labels is named in the query by exactly
/// these labels.
pub proof fn law_a_query_names_its_labels(id: u16, ls: Seq<Seq<char>>, qtype: u16)
    requires
        ls.len() > 0,
        writable(ls),
        forall|i: int| 0 <= i < ls.len() ==> !(#[trigger] ls[i]).contains('.'),
    ensures
        query_bytes(id, join(ls, seq!['.']), qtype).subrange(12, 12int + name_bytes(ls).len())
            == name_bytes(ls),
        labels_at(query_bytes(id, join(ls, seq!['.']), qtype), 12, 0) == Some(ls),
{
    let name = join(ls, seq!['.']);
    assert forall|i: int| 0 <= i < ls.len() implies (#[trigger] ls[i]).len() > 0
        && !ls[i].contains('.') by {
        if ls[i].len() == 0 {
            assert(ls[i] == Seq::<char>::empty());
            assert(encode_utf8(ls[i]).len() == 0);
        }
    }
    law_labels_stand_between_dots(ls);
    let q = query_bytes(id, name, qtype);
    let head = be16(id) + be16(0x0100) + be16(1) + be16(0) + be16(0) + be16(0);
    let rest = be16(qtype) + be16(1);
    assert(q == head + labels_bytes(ls) + seq![0u8] + rest);
    lemma_labels_read_back(head, ls, rest, 0);
    assert(q.subrange(12, 12int + name_bytes(ls).len()) == name_bytes(ls));
}

/// A label stands behind a byte with its length, and labels stand one after the
/// other.
pub proof fn law_labels_stand_behind_their_lengths(
    label: Seq<char>,
    a: Seq<Seq<char>>,
    b: Seq<Seq<char>>,
)
    requires
        encode_utf8(label).len() < 256,
    ensures
        labels_bytes(seq![label]).len() == 1 + encode_utf8(label).len(),
        labels_bytes(seq![label])[0] == encode_utf8(label).len(),
        labels_bytes(seq![label]).skip(1) == encode_utf8(label),
        labels_bytes(a + b) == labels_bytes(a) + labels_bytes(b),
    decreases b.len(),
{
    assert(seq![label].drop_last() == Seq::<Seq<char>>::empty());
    reveal_with_fuel(labels_bytes, 2);
    assert(labels_bytes(seq![label]) == Seq::<u8>::empty() + label_bytes(label));
    assert(labels_bytes(seq![label]).skip(1) == encode_utf8(label));
    if b.len() == 0 {
        assert(a + b == a);
        assert(labels_bytes(a) + labels_bytes(b) == labels_bytes(a));
    } else {
        law_labels_stand_behind_their_lengths(label, a, b.drop_last());
        assert((a + b).drop_last() == a + b.drop_last());
        assert((a + b).last() == b.last());
        assert(labels_bytes(a) + labels_bytes(b.drop_last()) + label_bytes(b.last())
            == labels_bytes(a) + (labels_bytes(b.drop_last()) + label_bytes(b.last())));
    }
}

/// A pointer behind some labels stands for the labels at the place that it
/// points to, as long as not too many pointers were followed; the name itself
/// ends behind the pointer.
pub proof fn law_pointers_stand_for_names_elsewhere(
    before: Seq<u8>,
    ls: Seq<Seq<char>>,
    target: int,
    rest: Seq<u8>,
    jumps: int,
)
    requires
        writable(ls),
        0 <= target < 0x4000,
        0 <= jumps < 20,
    ensures
        ({
            let pointer = seq![(0xC0 + target / 256) as u8, (target % 256) as u8];
            let buf = before + labels_bytes(ls) + pointer + rest;
            &&& name_end(buf, before.len() as int) == before.len() + labels_bytes(ls).len() + 2
            &&& match labels_at(buf, target, jumps + 1) {
                Some(others) => labels_at(buf, before.len() as int, jumps) == Some(ls + others),
                None => labels_at(buf, before.len() as int, jumps) is None,
            }
        }),
    decreases ls.len(),
{
    let pointer = seq![(0xC0 + target / 256) as u8, (target % 256) as u8];
    let buf = before + labels_bytes(ls) + pointer + rest;
    let at = before.len() as int;
    if ls.len() == 0 {
        assert(buf[at] == pointer[0] && buf[at + 1] == pointer[1]);
        assert((buf[at] - 0xC0) * 256 + buf[at + 1] == target);
        if let Some(others) = labels_at(buf, target, jumps + 1) {
            assert(ls + others == others);
        }
    } else {
        let tail = ls.skip(1);
        assert(ls == seq![ls[0]] + tail);
        assert(writable(ls) ==> 0 < encode_utf8(ls[0]).len() < 0xC0);
        law_labels_stand_behind_their_lengths(ls[0], seq![ls[0]], tail);
        let bytes = encode_utf8(ls[0]);
        let one = labels_bytes(seq![ls[0]]);
        let next = at + 1 + bytes.len();
        assert forall|i: int| 0 <= i < tail.len() implies 0 < encode_utf8(#[trigger] tail[i]).len()
            < 0xC0 by {
            assert(tail[i] == ls[i + 1]);
        }
        law_pointers_stand_for_names_elsewhere(before + one, tail, target, rest, jumps);
        assert(buf == (before + one) + labels_bytes(tail) + pointer + rest);
        assert(buf[at] == one[0]);
        assert(buf.subrange(at + 1, next) == one.skip(1));
        law_text_reads_back(ls[0]);
        if let Some(others) = labels_at(buf, target, jumps + 1) {
            assert(seq![ls[0]] + (tail + others) == ls + others);
        }
    }
}

/// No more than twenty pointers are followed in one name.
pub proof fn law_too_many_pointers_are_no_name(buf: Seq<u8>, at: int)
    requires
        0 <= at < buf.len(),
        buf[at] >= 0xC0,
    ensures
        labels_at(buf, at, 20) is None,
{
}

/// A name that reaches behind the end of the message is no name.
pub proof fn law_a_name_that_breaks_off_is_no_name(buf: Seq<u8>, at: int, jumps: int)
    ensures
        at >= buf.len() ==> labels_at(buf, at, jumps) is None,
        0 <= at < buf.len() && 0 < buf[at] < 0xC0 && at + 1 + buf[at] >= buf.len() ==> labels_at(
            buf,
            at,
            jumps,
        ) is None,
        0 <= at < buf.len() && buf[at] >= 0xC0 && at + 1 >= buf.len() ==> labels_at(buf, at, jumps)
            is None,
{
    if 0 <= at < buf.len() && 0 < buf[at] < 0xC0 && at + 1 + buf[at] >= buf.len() {
        let next = at + 1 + buf[at];
        assert(labels_at(buf, next, jumps) is None);
    }
}

/// Questions are passed over one by one: a name, a type and a class each. A
/// message that breaks off in them says nothing.
pub proof fn law_questions_are_passed_over(buf: Seq<u8>, pos: int, n: nat)
    ensures
        questions_end(buf, pos, 0) == Some(pos),
        labels_at(buf, pos, 0) is Some && name_end(buf, pos) + 4 <= buf.len() ==> questions_end(
            buf,
            pos,
            n + 1,
        ) == questions_end(buf, name_end(buf, pos) + 4, n),
        labels_at(buf, pos, 0) is None || name_end(buf, pos) + 4 > buf.len() ==> questions_end(
            buf,
            pos,
            n + 1,
        ) is None,
{
}

/// A record that the message breaks off in ends the list; one whose name cannot
/// be read spoils it.
pub proof fn law_a_record_that_breaks_off_ends_the_list(buf: Seq<u8>, pos: int, n: nat)
    requires
        n > 0,
    ensures
        labels_at(buf, pos, 0) is None ==> records_at(buf, pos, n) is None,
        labels_at(buf, pos, 0) is Some && name_end(buf, pos) + 10 > buf.len() ==> records_at(
            buf,
            pos,
            n,
        ) == Some(Seq::<RecordView>::empty()),
        labels_at(buf, pos, 0) is Some && name_end(buf, pos) + 10 <= buf.len() && name_end(buf, pos)
            + 10 + be16_at(buf, name_end(buf, pos) + 8) > buf.len() ==> records_at(buf, pos, n)
            == Some(Seq::<RecordView>::empty()),
{
}

/// Records of other types say nothing, and neither do addresses of another
/// length than theirs.
pub proof fn law_other_records_say_nothing(buf: Seq<u8>, rtype: u16, start: int, len: int)
    ensures
        rtype != 1 && rtype != 2 && rtype != 5 && rtype != 15 && rtype != 16 && rtype != 28
            ==> rdata_at(buf, rtype, start, len) is Other,
        rtype == 1 && len != 4 ==> rdata_at(buf, rtype, start, len) is Other,
        rtype == 28 && len != 16 ==> rdata_at(buf, rtype, start, len) is Other,
        rtype == 15 && len < 2 ==> rdata_at(buf, rtype, start, len) is Other,
{
}

/// A character string that would reach behind the end of its record is left
/// out, with what follows it.
pub proof fn law_a_string_that_breaks_off_is_left_out(buf: Seq<u8>, p: int, end: int)
    ensures
        p >= end ==> strings_text(buf, p, end).len() == 0,
        p < end && p + 1 + buf[p] > end ==> strings_text(buf, p, end).len() == 0,
{
}

} // verus!
