//! What holds of the functions on text, whatever text they are given.
use vstd::prelude::*;

use crate::text::{
    digit, digits, drop_while, find_from, first_some, is_white, join, lines, lower, pieces,
    skip_prefixes, skip_while, somes, strip_return, trim, upper,
};

verus! {

/// Mapping to small letters moves the capitals `A` to `Z` by the distance to
/// their small letters, and changes nothing else.
pub proof fn law_lower_moves_capitals(s: Seq<char>, i: int)
    requires
        0 <= i < s.len(),
    ensures
        lower(s).len() == s.len(),
        'A' <= s[i] <= 'Z' ==> lower(s)[i] as u32 == s[i] as u32 + 32,
        !('A' <= s[i] <= 'Z') ==> lower(s)[i] == s[i],
{
    if 'A' <= s[i] <= 'Z' {
        let c = s[i];
        assert(c as u8 == c as u32);
        assert(((c as u8 + 32) as char) as u32 == c as u32 + 32);
    }
}

/// Mapping to capitals moves the small letters `a` to `z` by the distance to
/// their capitals, and changes nothing else.
pub proof fn law_upper_moves_small_letters(s: Seq<char>, i: int)
    requires
        0 <= i < s.len(),
    ensures
        upper(s).len() == s.len(),
        'a' <= s[i] <= 'z' ==> upper(s)[i] as u32 + 32 == s[i] as u32,
        !('a' <= s[i] <= 'z') ==> upper(s)[i] == s[i],
{
    if 'a' <= s[i] <= 'z' {
        let c = s[i];
        assert(c as u8 == c as u32);
        assert(((c as u8 - 32) as char) as u32 + 32 == c as u32);
    }
}

/// Spaces, tabs, line feeds and carriage returns are white; letters, digits
/// and punctuation of ASCII are not.
pub proof fn law_white_space(c: char)
    ensures
        c == ' ' || c == '\t' || c == '\n' || c == '\r' ==> is_white(c),
        0x21 <= c as u32 <= 0x7E ==> !is_white(c),
{
}

/// What skipping leaves is the end of the text from the first character on
/// that is not skipped.
pub proof fn law_skipping_ends_at_the_first_other(s: Seq<char>, p: spec_fn(char) -> bool)
    ensures
        skip_while(s, p).len() <= s.len(),
        skip_while(s, p) == s.skip(s.len() - skip_while(s, p).len()),
        forall|i: int| 0 <= i < s.len() - skip_while(s, p).len() ==> p(#[trigger] s[i]),
        skip_while(s, p).len() > 0 ==> !p(skip_while(s, p)[0]),
    decreases s.len(),
{
    if s.len() > 0 && p(s[0]) {
        let rest = s.skip(1);
        law_skipping_ends_at_the_first_other(rest, p);
        let n = rest.len() - skip_while(rest, p).len();
        assert(rest.skip(n) == s.skip(n + 1));
        assert forall|i: int| 0 <= i < n + 1 implies p(#[trigger] s[i]) by {
            if i > 0 {
                assert(rest[i - 1] == s[i]);
            }
        }
    } else {
        assert(s.skip(0) == s);
    }
}

/// What dropping leaves is the beginning of the text up to the last character
/// that is not dropped.
pub proof fn law_dropping_ends_at_the_last_other(s: Seq<char>, p: spec_fn(char) -> bool)
    ensures
        drop_while(s, p).len() <= s.len(),
        drop_while(s, p) == s.take(drop_while(s, p).len() as int),
        forall|i: int| drop_while(s, p).len() <= i < s.len() ==> p(#[trigger] s[i]),
        drop_while(s, p).len() > 0 ==> !p(drop_while(s, p).last()),
    decreases s.len(),
{
    if s.len() > 0 && p(s.last()) {
        let front = s.drop_last();
        law_dropping_ends_at_the_last_other(front, p);
        let n = drop_while(front, p).len() as int;
        assert(front.take(n) == s.take(n));
        assert forall|i: int| n <= i < s.len() implies p(#[trigger] s[i]) by {
            if i < s.len() - 1 {
                assert(front[i] == s[i]);
            }
        }
    } else {
        assert(s.take(s.len() as int) == s);
    }
}

/// A trimmed text is what stands between white space in front and white space
/// behind, and has none at its own ends.
pub proof fn law_trimming_takes_white_space_off_both_ends(s: Seq<char>) -> (cut: (int, int))
    ensures
        0 <= cut.0 <= cut.1 <= s.len(),
        trim(s) == s.subrange(cut.0, cut.1),
        forall|i: int| 0 <= i < cut.0 ==> is_white(#[trigger] s[i]),
        forall|i: int| cut.1 <= i < s.len() ==> is_white(#[trigger] s[i]),
        trim(s).len() > 0 ==> !is_white(trim(s)[0]) && !is_white(trim(s).last()),
{
    let white = |c: char| is_white(c);
    let front = skip_while(s, white);
    law_skipping_ends_at_the_first_other(s, white);
    law_dropping_ends_at_the_last_other(front, white);
    let a = s.len() - front.len();
    let b = a + trim(s).len();
    assert(trim(s) == s.subrange(a, b));
    assert forall|i: int| 0 <= i < a implies is_white(#[trigger] s[i]) by {
        assert(white(s[i]));
    }
    assert forall|i: int| b <= i < s.len() implies is_white(#[trigger] s[i]) by {
        assert(front[i - a] == s[i]);
        assert(white(front[i - a]));
    }
    if trim(s).len() > 0 {
        assert(trim(s)[0] == front[0]);
        assert(!white(front[0]));
        assert(!white(trim(s).last()));
    }
    (a, b)
}

/// A text in white space is left by trimming.
pub proof fn law_text_in_white_space_is_left(before: Seq<char>, s: Seq<char>, after: Seq<char>)
    requires
        forall|i: int| 0 <= i < before.len() ==> is_white(#[trigger] before[i]),
        forall|i: int| 0 <= i < after.len() ==> is_white(#[trigger] after[i]),
        s.len() > 0 ==> !is_white(s[0]) && !is_white(s.last()),
    ensures
        trim(before + s + after) == s,
{
    let all = before + s + after;
    let cut = law_trimming_takes_white_space_off_both_ends(all);
    let n = before.len() as int;
    assert forall|i: int| 0 <= i < all.len() implies (is_white(#[trigger] all[i]) || n <= i < n
        + s.len()) by {
        if i < n {
            assert(all[i] == before[i]);
        } else if i >= n + s.len() {
            assert(all[i] == after[i - n - s.len()]);
        }
    }
    if s.len() > 0 {
        assert(all[n] == s[0]);
        assert(all[n + s.len() - 1] == s.last());
        assert(cut.0 <= n);
        assert(n + s.len() <= cut.1);
        assert(trim(all)[0] == all[cut.0]);
        assert(trim(all).last() == all[cut.1 - 1]);
        assert(cut.0 == n);
        assert(cut.1 == n + s.len());
        assert(all.subrange(n, n + s.len()) == s);
    } else if trim(all).len() > 0 {
        assert(trim(all)[0] == all[cut.0]);
        assert(false);
    } else {
        assert(trim(all) == s);
    }
}

/// A text that neither begins nor ends with white space is left by trimming
/// as it is.
pub proof fn law_trimmed_text_stays(s: Seq<char>)
    requires
        s.len() > 0 ==> !is_white(s[0]) && !is_white(s.last()),
    ensures
        trim(s) == s,
{
    let none = Seq::<char>::empty();
    law_text_in_white_space_is_left(none, s, none);
    assert(none + s + none == s);
}

/// No texts join to nothing, one to itself, and two lists to what each joins
/// to, with the separator between them.
pub proof fn law_joined_lists_join(a: Seq<Seq<char>>, b: Seq<Seq<char>>, sep: Seq<char>)
    ensures
        join(Seq::empty(), sep) == Seq::<char>::empty(),
        a.len() == 1 ==> join(a, sep) == a[0],
        a.len() > 0 && b.len() > 0 ==> join(a + b, sep) == join(a, sep) + sep + join(b, sep),
    decreases b.len(),
{
    if a.len() > 0 && b.len() > 0 {
        let all = a + b;
        assert(all.last() == b.last());
        assert(all.drop_last() == a + b.drop_last());
        law_joined_lists_join(a, b.drop_last(), sep);
        if b.len() == 1 {
            assert(a + b.drop_last() == a);
        } else {
            assert(join(a, sep) + sep + join(b.drop_last(), sep) + sep + b.last() == join(a, sep)
                + sep + (join(b.drop_last(), sep) + sep + b.last()));
        }
    }
}

/// The pieces of a text join to the text again, and no piece holds the
/// separator.
pub proof fn law_pieces_join_again(s: Seq<char>, sep: char)
    ensures
        pieces(s, sep).len() > 0,
        join(pieces(s, sep), seq![sep]) == s,
        forall|i: int|
            0 <= i < pieces(s, sep).len() ==> !(#[trigger] pieces(s, sep)[i]).contains(sep),
    decreases s.len(),
{
    let ps = pieces(s, sep);
    if s.len() > 0 {
        let front = pieces(s.drop_last(), sep);
        law_pieces_join_again(s.drop_last(), sep);
        assert forall|i: int| 0 <= i < ps.len() implies !(#[trigger] ps[i]).contains(sep) by {
            if i < front.len() {
                assert(!front[i].contains(sep));
                if i == front.len() - 1 && s.last() != sep {
                    let last = front[i].push(s.last());
                    assert(ps[i] == last);
                    if last.contains(sep) {
                        let k = last.index_of(sep);
                        assert(front[i][k] == sep);
                    }
                }
            }
        }
        if s.last() == sep {
            law_joined_lists_join(front, seq![Seq::<char>::empty()], seq![sep]);
            assert(ps == front + seq![Seq::<char>::empty()]);
            assert(join(ps, seq![sep]) == s.drop_last() + seq![sep] + Seq::<char>::empty());
            assert(join(ps, seq![sep]) == s);
        } else {
            let tail = seq![front.last().push(s.last())];
            if front.len() == 1 {
                assert(ps == tail);
                assert(join(ps, seq![sep]) == s);
            } else {
                law_joined_lists_join(front.drop_last(), tail, seq![sep]);
                law_joined_lists_join(front.drop_last(), seq![front.last()], seq![sep]);
                assert(ps == front.drop_last() + tail);
                assert(front == front.drop_last() + seq![front.last()]);
                assert(join(tail, seq![sep]) == tail[0]);
                assert(join(seq![front.last()], seq![sep]) == front.last());
                let most = join(front.drop_last(), seq![sep]) + seq![sep];
                assert(most + front.last().push(s.last()) == (most + front.last()).push(s.last()));
                assert(join(ps, seq![sep]) == s);
            }
        }
    }
}

/// A piece without the separator, the separator, and a rest: the pieces are
/// that piece and then those of the rest.
pub proof fn law_first_piece(piece: Seq<char>, rest: Seq<char>, sep: char)
    requires
        !piece.contains(sep),
    ensures
        pieces(piece, sep) == seq![piece],
        pieces(piece + seq![sep] + rest, sep) == seq![piece] + pieces(rest, sep),
    decreases piece.len() + rest.len(),
{
    if piece.len() > 0 {
        let front = piece.drop_last();
        if front.contains(sep) {
            let k = front.index_of(sep);
            assert(piece[k] == sep);
        }
        law_first_piece(front, Seq::empty(), sep);
        assert(piece.last() != sep) by {
            assert(piece.contains(piece[piece.len() - 1]));
        }
        assert(front.push(piece.last()) == piece);
        assert(pieces(piece, sep) == seq![piece]);
    } else {
        assert(piece == Seq::<char>::empty());
        assert(pieces(piece, sep) == seq![piece]);
    }
    let s = piece + seq![sep] + rest;
    if rest.len() == 0 {
        assert(s.drop_last() == piece);
        assert(s.last() == sep);
        assert(pieces(s, sep) == seq![piece].push(Seq::empty()));
        assert(pieces(rest, sep) == seq![Seq::<char>::empty()]);
        assert(pieces(s, sep) == seq![piece] + pieces(rest, sep));
    } else {
        assert(s.drop_last() == piece + seq![sep] + rest.drop_last());
        assert(s.last() == rest.last());
        law_first_piece(piece, rest.drop_last(), sep);
        law_pieces_join_again(rest.drop_last(), sep);
        let before = pieces(rest.drop_last(), sep);
        let both = seq![piece] + before;
        assert(both.last() == before.last());
        assert(both.drop_last() == seq![piece] + before.drop_last());
        assert(pieces(s, sep) == seq![piece] + pieces(rest, sep));
    }
}

/// Pieces that hold no separator are what a text is split into that was joined
/// from them.
pub proof fn law_joined_pieces_split_again(ps: Seq<Seq<char>>, sep: char)
    requires
        ps.len() > 0,
        forall|i: int| 0 <= i < ps.len() ==> !(#[trigger] ps[i]).contains(sep),
    ensures
        pieces(join(ps, seq![sep]), sep) == ps,
    decreases ps.len(),
{
    let head = seq![ps[0]];
    let tail = ps.skip(1);
    assert(ps == head + tail);
    law_joined_lists_join(head, tail, seq![sep]);
    law_first_piece(ps[0], join(tail, seq![sep]), sep);
    if ps.len() == 1 {
        assert(ps == seq![ps[0]]);
    } else {
        assert forall|i: int| 0 <= i < tail.len() implies !(#[trigger] tail[i]).contains(sep) by {
            assert(tail[i] == ps[i + 1]);
        }
        law_joined_pieces_split_again(tail, sep);
    }
}

/// A line ends at the first line feed: the lines of a text are what stands
/// before it, without the carriage return of the line ending, and then the
/// lines of the rest. A last line needs no line feed.
pub proof fn law_first_line(line: Seq<char>, rest: Seq<char>)
    requires
        !line.contains('\n'),
    ensures
        lines(Seq::empty()) == Seq::<Seq<char>>::empty(),
        line.len() > 0 ==> lines(line) == seq![line],
        lines(line + seq!['\r', '\n'] + rest) == seq![line] + lines(rest),
        !(line.len() > 0 && line.last() == '\r') ==> lines(line + seq!['\n'] + rest) == seq![line]
            + lines(rest),
{
    let none = Seq::<char>::empty();
    law_first_piece(none, none, '\n');
    law_first_piece(line, rest, '\n');
    assert(seq![none].drop_last().map_values(|l: Seq<char>| strip_return(l)) == Seq::<
        Seq<char>,
    >::empty());
    assert(lines(none) == Seq::<Seq<char>>::empty());
    if line.len() > 0 {
        assert(seq![line].drop_last().map_values(|l: Seq<char>| strip_return(l)) == Seq::<
            Seq<char>,
        >::empty());
        assert(lines(line) == seq![line]);
    }
    let returned = line.push('\r');
    if returned.contains('\n') {
        let k = returned.index_of('\n');
        assert(line[k] == '\n');
    }
    law_first_piece(returned, rest, '\n');
    assert(returned + seq!['\n'] + rest == line + seq!['\r', '\n'] + rest);
    lemma_lines_of_pieces(returned, rest);
    assert(strip_return(returned) == line);
    lemma_lines_of_pieces(line, rest);
}

proof fn lemma_lines_of_pieces(line: Seq<char>, rest: Seq<char>)
    requires
        !line.contains('\n'),
    ensures
        lines(line + seq!['\n'] + rest) == seq![strip_return(line)] + lines(rest),
{
    law_first_piece(line, rest, '\n');
    law_pieces_join_again(rest, '\n');
    let strip = |l: Seq<char>| strip_return(l);
    let ps = pieces(rest, '\n');
    let all = seq![line] + ps;
    assert(all.last() == ps.last());
    assert(all.drop_last() == seq![line] + ps.drop_last());
    assert(all.drop_last().map_values(strip) == seq![strip_return(line)]
        + ps.drop_last().map_values(strip));
    assert(lines(line + seq!['\n'] + rest) == seq![strip_return(line)] + lines(rest));
}

/// A pattern is found at the first place from the given one on where it
/// stands, and nowhere only if it stands nowhere.
pub proof fn law_the_first_place_is_found(s: Seq<char>, pat: Seq<char>, from: int)
    requires
        0 <= from,
    ensures
        match find_from(s, pat, from) {
            Some(i) => {
                &&& from <= i
                &&& i + pat.len() <= s.len()
                &&& s.subrange(i, i + pat.len()) == pat
                &&& forall|j: int|
                    from <= j < i ==> (#[trigger] s.subrange(j, j + pat.len())) != pat
            },
            None => forall|j: int|
                from <= j && j + pat.len() <= s.len() ==> (#[trigger] s.subrange(
                    j,
                    j + pat.len(),
                )) != pat,
        },
    decreases s.len() - from + 1,
{
    if from + pat.len() <= s.len() && s.subrange(from, from + pat.len()) != pat {
        law_the_first_place_is_found(s, pat, from + 1);
    }
}

/// Of options the first that is there counts.
pub proof fn law_the_first_option_counts<T>(s: Seq<Option<T>>, n: int)
    requires
        0 <= n < s.len(),
        s[n] is Some,
        forall|i: int| 0 <= i < n ==> (#[trigger] s[i]) is None,
    ensures
        first_some(s) == s[n],
    decreases s.len(),
{
    let front = s.drop_last();
    if n < front.len() {
        assert forall|i: int| 0 <= i < n implies (#[trigger] front[i]) is None by {
            assert(front[i] == s[i]);
        }
        law_the_first_option_counts(front, n);
    } else {
        law_no_option_counts(front);
    }
}

/// Where no option is there, none counts.
pub proof fn law_no_option_counts<T>(s: Seq<Option<T>>)
    requires
        forall|i: int| 0 <= i < s.len() ==> (#[trigger] s[i]) is None,
    ensures
        first_some(s) is None,
    decreases s.len(),
{
    if s.len() > 0 {
        assert forall|i: int| 0 <= i < s.drop_last().len() implies (#[trigger] s.drop_last()[i])
            is None by {
            assert(s.drop_last()[i] == s[i]);
        }
        assert(s[s.len() - 1] is None);
        law_no_option_counts(s.drop_last());
    }
}

/// The present items of two lists are those of the first and then those of the
/// second; of a single option it is the item, if there is one.
pub proof fn law_present_items_stay_in_order<T>(a: Seq<Option<T>>, b: Seq<Option<T>>, x: T)
    ensures
        somes(Seq::<Option<T>>::empty()) == Seq::<T>::empty(),
        somes(seq![Some(x)]) == seq![x],
        somes(seq![None::<T>]) == Seq::<T>::empty(),
        somes(a + b) == somes(a) + somes(b),
    decreases b.len(),
{
    assert(seq![Some(x)].drop_last() == Seq::<Option<T>>::empty());
    assert(seq![None::<T>].drop_last() == Seq::<Option<T>>::empty());
    reveal_with_fuel(somes, 2);
    assert(somes(seq![Some(x)]) == seq![x]);
    if b.len() > 0 {
        law_present_items_stay_in_order(a, b.drop_last(), x);
        assert((a + b).drop_last() == a + b.drop_last());
        assert((a + b).last() == b.last());
        assert(somes(a + b) == somes(a) + somes(b));
    } else {
        assert(a + b == a);
        assert(somes(a) + somes(b) == somes(a));
    }
}

/// What is left behind copies of a prefix does not begin with the prefix, and
/// what stood in front of it was such copies.
pub proof fn law_prefixes_are_skipped(s: Seq<char>, prefix: Seq<char>)
    requires
        prefix.len() > 0,
    ensures
        prefix.is_prefix_of(s) ==> skip_prefixes(s, prefix) == skip_prefixes(
            s.skip(prefix.len() as int),
            prefix,
        ),
        !prefix.is_prefix_of(s) ==> skip_prefixes(s, prefix) == s,
        !prefix.is_prefix_of(skip_prefixes(s, prefix)),
    decreases s.len(),
{
    if prefix.is_prefix_of(s) {
        law_prefixes_are_skipped(s.skip(prefix.len() as int), prefix);
    }
}

/// The value of a digit: `0` to `9`, then `a` to `f`.
pub open spec fn digit_value(c: char) -> int {
    if '0' <= c <= '9' {
        c as u32 - '0' as u32
    } else {
        c as u32 - 'a' as u32 + 10
    }
}

/// The number that digits stand for in a base, the highest digit first.
pub open spec fn number_value(s: Seq<char>, base: int) -> int
    decreases s.len(),
{
    if s.len() == 0 {
        0
    } else {
        number_value(s.drop_last(), base) * base + digit_value(s.last())
    }
}

proof fn lemma_digit(d: nat)
    requires
        d < 16,
    ensures
        digit_value(digit(d)) == d,
        d < 10 ==> '0' <= digit(d) <= '9',
        d >= 10 ==> 'a' <= digit(d) <= 'f',
{
    if d < 10 {
        assert(((48 + d) as char) as u32 == 48 + d);
    } else {
        assert(((87 + d) as char) as u32 == 87 + d);
    }
}

/// A number that was written in a base stands for that number; it is written
/// with the digits of that base, and begins with a zero only if it is zero.
pub proof fn law_written_numbers_read_back(n: nat, base: nat)
    requires
        2 <= base <= 16,
    ensures
        number_value(digits(n, base), base as int) == n,
        digits(n, base).len() > 0,
        digits(n, base)[0] == '0' ==> n == 0 && digits(n, base).len() == 1,
        forall|i: int|
            0 <= i < digits(n, base).len() ==> ('0' <= #[trigger] digits(n, base)[i] <= '9' || 'a'
                <= digits(n, base)[i] <= 'f') && digit_value(digits(n, base)[i]) < base,
    decreases n,
{
    let s = digits(n, base);
    reveal_with_fuel(number_value, 2);
    if n < base {
        lemma_digit(n);
        assert(s.drop_last() == Seq::<char>::empty());
    } else {
        assert(n / base < n) by (nonlinear_arith)
            requires
                base >= 2,
                n >= base,
        ;
        assert(n / base >= 1) by (nonlinear_arith)
            requires
                base >= 2,
                n >= base,
        ;
        let front = digits(n / base, base);
        law_written_numbers_read_back(n / base, base);
        assert(n % base < base) by (nonlinear_arith)
            requires
                base >= 2,
        ;
        lemma_digit(n % base);
        assert(s == front.push(digit(n % base)));
        assert(s.drop_last() == front);
        assert(s[0] == front[0]);
        assert((n / base) * base + n % base == n) by (nonlinear_arith)
            requires
                base >= 2,
        ;
        assert forall|i: int| 0 <= i < s.len() implies ('0' <= #[trigger] s[i] <= '9' || 'a'
            <= s[i] <= 'f') && digit_value(s[i]) < base by {
            if i < front.len() {
                assert(front[i] == s[i]);
            }
        }
    }
}

} // verus!
