//! What holds of written internet addresses.
use vstd::prelude::*;

use crate::net::{ipv6_text, longest_run, segments_text, zero_run, Ipv4Addr};
use crate::text::{decimal, digits, pieces};
use crate::text_laws::{
    law_joined_pieces_split_again, law_written_numbers_read_back, number_value,
};

verus! {

/// An IPv4 address is written as four numbers with dots between them: split at
/// the dots, they are the bytes of the address.
pub proof fn law_ipv4_addresses_read_back(ip: Ipv4Addr)
    ensures
        pieces(ip.text(), '.').len() == 4,
        number_value(pieces(ip.text(), '.')[0], 10) == ip.a,
        number_value(pieces(ip.text(), '.')[1], 10) == ip.b,
        number_value(pieces(ip.text(), '.')[2], 10) == ip.c,
        number_value(pieces(ip.text(), '.')[3], 10) == ip.d,
{
    let parts = seq![
        decimal(ip.a as nat),
        decimal(ip.b as nat),
        decimal(ip.c as nat),
        decimal(ip.d as nat),
    ];
    law_written_numbers_read_back(ip.a as nat, 10);
    law_written_numbers_read_back(ip.b as nat, 10);
    law_written_numbers_read_back(ip.c as nat, 10);
    law_written_numbers_read_back(ip.d as nat, 10);
    lemma_no_separator(ip.a as nat, 10, '.');
    lemma_no_separator(ip.b as nat, 10, '.');
    lemma_no_separator(ip.c as nat, 10, '.');
    lemma_no_separator(ip.d as nat, 10, '.');
    law_joined_pieces_split_again(parts, '.');
}

proof fn lemma_no_separator(n: nat, base: nat, sep: char)
    requires
        2 <= base <= 16,
        sep == '.' || sep == ':',
    ensures
        !digits(n, base).contains(sep),
{
    law_written_numbers_read_back(n, base);
    if digits(n, base).contains(sep) {
        let k = digits(n, base).index_of(sep);
        assert(digits(n, base)[k] == sep);
    }
}

/// Segments are written as hexadecimal numbers with colons between them: split
/// at the colons, they are the segments.
pub proof fn law_segments_read_back(s: Seq<u16>, i: int)
    requires
        0 <= i < s.len(),
    ensures
        pieces(segments_text(s), ':').len() == s.len(),
        number_value(pieces(segments_text(s), ':')[i], 16) == s[i],
{
    let parts = s.map_values(|x: u16| digits(x as nat, 16));
    assert forall|k: int| 0 <= k < parts.len() implies !(#[trigger] parts[k]).contains(':') by {
        lemma_no_separator(s[k] as nat, 16, ':');
    }
    law_joined_pieces_split_again(parts, ':');
    law_written_numbers_read_back(s[i] as nat, 16);
}

proof fn lemma_zero_run(s: Seq<u16>, i: int)
    requires
        0 <= i <= s.len(),
    ensures
        0 <= zero_run(s, i),
        i + zero_run(s, i) <= s.len(),
        forall|k: int| i <= k < i + zero_run(s, i) ==> s[k] == 0,
        i + zero_run(s, i) < s.len() ==> s[i + zero_run(s, i)] != 0,
    decreases s.len() - i,
{
    if i < s.len() && s[i] == 0 {
        lemma_zero_run(s, i + 1);
    }
}

proof fn lemma_run_is_maximal(s: Seq<u16>, i: int, n: int)
    requires
        0 <= i,
        0 <= n,
        i + n <= s.len(),
        forall|k: int| i <= k < i + n ==> s[k] == 0,
    ensures
        zero_run(s, i) >= n,
    decreases n,
{
    lemma_zero_run(s, i);
    if n > 0 {
        assert(s[i] == 0);
        lemma_run_is_maximal(s, i + 1, n - 1);
    }
}

proof fn lemma_longest_run(s: Seq<u16>, end: int)
    requires
        1 <= end <= s.len(),
    ensures
        0 <= longest_run(s, end) < end,
        forall|k: int| 0 <= k < end ==> #[trigger] zero_run(s, k) <= zero_run(s, longest_run(s, end)),
        forall|k: int|
            0 <= k < longest_run(s, end) ==> #[trigger] zero_run(s, k) < zero_run(s, longest_run(s, end)),
    decreases end,
{
    if end > 1 {
        lemma_longest_run(s, end - 1);
    }
}

/// An IPv6 address without two zero segments in a row, and none that stands for
/// an IPv4 address, is written as its eight segments.
pub proof fn law_ipv6_addresses_without_zeros_are_written_out(s: Seq<u16>)
    requires
        s.len() == 8,
        forall|k: int| 0 <= k < 7 ==> !(s[k] == 0 && #[trigger] s[k + 1] == 0),
    ensures
        ipv6_text(s) == segments_text(s),
{
    lemma_longest_run(s, 8);
    let best = longest_run(s, 8);
    lemma_zero_run(s, best);
    lemma_zero_run(s, 0);
    if zero_run(s, best) > 1 {
        assert(s[best] == 0 && s[best + 1] == 0);
    }
    if zero_run(s, 0) == 5 {
        assert(s[0] == 0 && s[0int + 1] == 0);
    }
}

/// Whether so many segments from a place on are zeros.
pub open spec fn are_zeros(s: Seq<u16>, at: int, n: int) -> bool {
    0 <= at && 0 <= n && at + n <= s.len() && forall|k: int| at <= k < at + n ==> s[k] == 0
}

/// In an IPv6 address the first of the longest runs of zero segments, if it has
/// two or more, is left out and marked by two colons; what stands before and
/// behind is written out.
pub proof fn law_the_longest_zeros_of_ipv6_addresses_are_left_out(s: Seq<u16>, at: int, n: int)
    requires
        s.len() == 8,
        n >= 2,
        are_zeros(s, at, n),
        forall|i: int, m: int| #[trigger] are_zeros(s, i, m) ==> m <= n && (m == n ==> at <= i),
        !(at == 0 && n == 5 && s[5] == 0xFFFF),
    ensures
        ipv6_text(s) == segments_text(s.take(at)) + seq![':', ':'] + segments_text(s.skip(at + n)),
{
    lemma_longest_run(s, 8);
    let best = longest_run(s, 8);
    let len = zero_run(s, best);
    lemma_zero_run(s, best);
    lemma_zero_run(s, at);
    lemma_run_is_maximal(s, at, n);
    assert(are_zeros(s, at, zero_run(s, at)));
    assert(zero_run(s, at) == n);
    assert(len >= n);
    assert(are_zeros(s, best, len));
    assert(best == at);
    if zero_run(s, 0) == 5 {
        lemma_zero_run(s, 0);
        assert(are_zeros(s, 0, 5));
        assert(s[5] != 0);
        if n == 5 {
            assert(at == 0);
        }
        assert(n >= 5);
        if at > 0 {
            assert(at >= 6);
        }
    }
}

/// An IPv6 address that stands for an IPv4 address ends in that address.
pub proof fn law_mapped_addresses_end_in_the_ipv4_address(s: Seq<u16>, ip: Ipv4Addr)
    requires
        s.len() == 8,
        s[0] == 0 && s[1] == 0 && s[2] == 0 && s[3] == 0 && s[4] == 0,
        s[5] == 0xFFFF,
        s[6] == ip.a * 256 + ip.b,
        s[7] == ip.c * 256 + ip.d,
    ensures
        ipv6_text(s) == seq![':', ':', 'f', 'f', 'f', 'f', ':'] + ip.text(),
{
    lemma_run_is_maximal(s, 0, 5);
    lemma_zero_run(s, 0);
    assert(zero_run(s, 0) == 5);
}

} // verus!
