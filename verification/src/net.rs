//! Internet addresses and how they are written.
use vstd::prelude::*;

use crate::text::{decimal, digits, join, join_texts, texts, to_decimal, to_digits};

verus! {

/// An IPv4 address.
#[derive(Debug, Clone, Copy, PartialEq, Eq, Structural)]
pub struct Ipv4Addr {
    pub a: u8,
    pub b: u8,
    pub c: u8,
    pub d: u8,
}

/// An IPv6 address as its eight 16-bit segments.
#[derive(Debug, Clone, Copy, PartialEq, Eq)]
pub struct Ipv6Addr {
    pub segments: [u16; 8],
}

/// An address of either family.
#[derive(Debug, Clone, Copy, PartialEq, Eq)]
pub enum IpAddr {
    V4(Ipv4Addr),
    V6(Ipv6Addr),
}

/// Four bytes in decimal, with dots between them.
pub open spec fn ipv4_text(a: u8, b: u8, c: u8, d: u8) -> Seq<char> {
    join(
        seq![decimal(a as nat), decimal(b as nat), decimal(c as nat), decimal(d as nat)],
        seq!['.'],
    )
}

impl Ipv4Addr {
    pub fn new(a: u8, b: u8, c: u8, d: u8) -> (r: Self)
        ensures
            r == (Ipv4Addr { a, b, c, d }),
    {
        Ipv4Addr { a, b, c, d }
    }

    pub open spec fn text(self) -> Seq<char> {
        ipv4_text(self.a, self.b, self.c, self.d)
    }

    /// The address in dotted decimal.
    pub fn to_string(&self) -> (r: String)
        ensures
            r@ == self.text(),
    {
        let mut parts: Vec<String> = Vec::new();
        parts.push(to_decimal(self.a as u64));
        parts.push(to_decimal(self.b as u64));
        parts.push(to_decimal(self.c as u64));
        parts.push(to_decimal(self.d as u64));
        proof {
            reveal_strlit(".");
            assert("."@ == seq!['.']);
            assert(texts(parts@) == seq![
                decimal(self.a as nat),
                decimal(self.b as nat),
                decimal(self.c as nat),
                decimal(self.d as nat),
            ]);
        }
        join_texts(&parts, ".")
    }
}

/// The number of zero segments from position `i` on.
pub open spec fn zero_run(s: Seq<u16>, i: int) -> int
    decreases s.len() - i,
{
    if i < 0 || i >= s.len() || s[i] != 0 {
        0
    } else {
        1 + zero_run(s, i + 1)
    }
}

/// The first position before `end` at which a longest run of zeros begins.
pub open spec fn longest_run(s: Seq<u16>, end: int) -> int
    decreases end,
{
    if end <= 1 {
        0
    } else {
        let best = longest_run(s, end - 1);
        if zero_run(s, end - 1) > zero_run(s, best) {
            end - 1
        } else {
            best
        }
    }
}

/// Segments in hexadecimal, with colons between them.
pub open spec fn segments_text(s: Seq<u16>) -> Seq<char> {
    join(s.map_values(|x: u16| digits(x as nat, 16)), seq![':'])
}

/// An IPv6 address as RFC 5952 writes it: an IPv4-mapped address ends in
/// dotted decimal, and of other addresses the first of the longest runs of
/// two or more zero segments is written as two colons.
pub open spec fn ipv6_text(s: Seq<u16>) -> Seq<char> {
    let best = longest_run(s, 8);
    let len = zero_run(s, best);
    if zero_run(s, 0) == 5 && s[5] == 0xFFFF {
        seq![':', ':', 'f', 'f', 'f', 'f', ':'] + ipv4_text(
            (s[6] / 256) as u8,
            (s[6] % 256) as u8,
            (s[7] / 256) as u8,
            (s[7] % 256) as u8,
        )
    } else if len > 1 {
        segments_text(s.take(best)) + seq![':', ':'] + segments_text(s.skip(best + len))
    } else {
        segments_text(s)
    }
}

impl Ipv6Addr {
    pub open spec fn text(self) -> Seq<char> {
        ipv6_text(self.segments@)
    }

    fn run_at(&self, from: usize) -> (r: usize)
        requires
            from <= 8,
        ensures
            r == zero_run(self.segments@, from as int),
            from + r <= 8,
    {
        let mut i: usize = from;
        while i < 8 && self.segments[i] == 0
            invariant
                from <= i <= 8,
                zero_run(self.segments@, from as int) == (i - from) + zero_run(self.segments@, i as int),
            decreases 8 - i,
        {
            i += 1;
        }
        i - from
    }

    fn hex_range(&self, from: usize, to: usize) -> (r: String)
        requires
            from <= to <= 8,
        ensures
            r@ == segments_text(self.segments@.subrange(from as int, to as int)),
    {
        let mut parts: Vec<String> = Vec::new();
        let mut i: usize = from;
        let ghost wanted = self.segments@.subrange(from as int, to as int).map_values(
            |x: u16| digits(x as nat, 16),
        );
        while i < to
            invariant
                from <= i <= to <= 8,
                wanted == self.segments@.subrange(from as int, to as int).map_values(
                    |x: u16| digits(x as nat, 16),
                ),
                texts(parts@) == wanted.take(i - from),
            decreases to - i,
        {
            let part = to_digits(self.segments[i] as u64, 16);
            let ghost old_parts = texts(parts@);
            parts.push(part);
            assert(texts(parts@) == old_parts.push(part@));
            assert(wanted.take(i - from + 1) == wanted.take(i - from).push(wanted[i - from]));
            i += 1;
        }
        proof {
            assert(wanted.take(to - from) == wanted);
            reveal_strlit(":");
            assert(":"@ == seq![':']);
        }
        join_texts(&parts, ":")
    }

    /// The address in the form that RFC 5952 recommends.
    pub fn to_string(&self) -> (r: String)
        ensures
            r@ == self.text(),
    {
        let s = &self.segments;
        proof {
            reveal_strlit("::");
            reveal_strlit("::ffff:");
            assert("::"@ == seq![':', ':']);
            assert("::ffff:"@ == seq![':', ':', 'f', 'f', 'f', 'f', ':']);
        }
        if self.run_at(0) == 5 && s[5] == 0xFFFF {
            let v4 = Ipv4Addr::new(
                (s[6] / 256) as u8,
                (s[6] % 256) as u8,
                (s[7] / 256) as u8,
                (s[7] % 256) as u8,
            );
            let mut r = "::ffff:".to_owned();
            r.append(v4.to_string().as_str());
            return r;
        }
        let mut best: usize = 0;
        let mut best_len: usize = self.run_at(0);
        let mut i: usize = 1;
        while i < 8
            invariant
                1 <= i <= 8,
                best < i,
                best == longest_run(self.segments@, i as int),
                best_len == zero_run(self.segments@, best as int),
                best + best_len <= 8,
            decreases 8 - i,
        {
            let len: usize = self.run_at(i);
            if len > best_len {
                best = i;
                best_len = len;
            }
            i += 1;
        }
        if best_len > 1 {
            let mut r = self.hex_range(0, best);
            r.append("::");
            r.append(self.hex_range(best + best_len, 8).as_str());
            proof {
                assert(s@.subrange(0, best as int) == s@.take(best as int));
                assert(s@.subrange(best + best_len, 8) == s@.skip(best + best_len));
            }
            r
        } else {
            assert(s@.subrange(0, 8) == s@);
            self.hex_range(0, 8)
        }
    }
}

} // verus!
