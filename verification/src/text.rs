//! Text as sequences of characters: trimming, lines, splitting, searching and
//! writing numbers. Executable functions work on `Vec<char>`, so that an
//! index into the text is an index into its model.
use vstd::prelude::*;

verus! {

/// The Unicode `White_Space` property.
pub open spec fn is_white(c: char) -> bool {
    let n = c as u32;
    ||| 0x09 <= n <= 0x0D
    ||| n == 0x20
    ||| n == 0x85
    ||| n == 0xA0
    ||| n == 0x1680
    ||| 0x2000 <= n <= 0x200A
    ||| n == 0x2028
    ||| n == 0x2029
    ||| n == 0x202F
    ||| n == 0x205F
    ||| n == 0x3000
}

/// A character with ASCII capitals mapped to small letters.
pub open spec fn lower_char(c: char) -> char {
    if 'A' <= c <= 'Z' {
        (c as u8 + 32) as char
    } else {
        c
    }
}

/// A character with ASCII small letters mapped to capitals.
pub open spec fn upper_char(c: char) -> char {
    if 'a' <= c <= 'z' {
        (c as u8 - 32) as char
    } else {
        c
    }
}

/// Text with its ASCII capitals mapped to small letters.
pub open spec fn lower(s: Seq<char>) -> Seq<char> {
    s.map_values(|c: char| lower_char(c))
}

/// Text with its ASCII small letters mapped to capitals.
pub open spec fn upper(s: Seq<char>) -> Seq<char> {
    s.map_values(|c: char| upper_char(c))
}

/// What is left of `s` after its longest prefix of characters in `p`.
pub open spec fn skip_while(s: Seq<char>, p: spec_fn(char) -> bool) -> Seq<char>
    decreases s.len(),
{
    if s.len() > 0 && p(s[0]) {
        skip_while(s.skip(1), p)
    } else {
        s
    }
}

/// What is left of `s` before its longest suffix of characters in `p`.
pub open spec fn drop_while(s: Seq<char>, p: spec_fn(char) -> bool) -> Seq<char>
    decreases s.len(),
{
    if s.len() > 0 && p(s.last()) {
        drop_while(s.drop_last(), p)
    } else {
        s
    }
}

/// Text without white space at either end.
pub open spec fn trim(s: Seq<char>) -> Seq<char> {
    drop_while(skip_while(s, |c: char| is_white(c)), |c: char| is_white(c))
}

/// Text without any copies of `prefix` in front.
pub open spec fn skip_prefixes(s: Seq<char>, prefix: Seq<char>) -> Seq<char>
    decreases s.len(),
{
    if 0 < prefix.len() && prefix.is_prefix_of(s) {
        skip_prefixes(s.skip(prefix.len() as int), prefix)
    } else {
        s
    }
}

/// The pieces of `s` between occurrences of `sep`; one more than there are
/// occurrences.
pub open spec fn pieces(s: Seq<char>, sep: char) -> Seq<Seq<char>>
    decreases s.len(),
{
    if s.len() == 0 {
        seq![Seq::<char>::empty()]
    } else {
        let front = pieces(s.drop_last(), sep);
        if s.last() == sep {
            front.push(Seq::empty())
        } else {
            front.drop_last().push(front.last().push(s.last()))
        }
    }
}

/// A line without the carriage return that belongs to its line ending.
pub open spec fn strip_return(s: Seq<char>) -> Seq<char> {
    if s.len() > 0 && s.last() == '\r' {
        s.drop_last()
    } else {
        s
    }
}

/// The lines of a text. A line ends with a line feed, or with a carriage
/// return and a line feed; what follows the last line feed is a line if it is
/// not empty.
pub open spec fn lines(s: Seq<char>) -> Seq<Seq<char>> {
    let ps = pieces(s, '\n');
    let ended = ps.drop_last().map_values(|l: Seq<char>| strip_return(l));
    if ps.last().len() == 0 {
        ended
    } else {
        ended.push(ps.last())
    }
}

/// `pat` stands in `s` at position `i`.
pub open spec fn occurs_at(s: Seq<char>, pat: Seq<char>, i: int) -> bool {
    0 <= i && i + pat.len() <= s.len() && s.subrange(i, i + pat.len()) == pat
}

/// The first position in `s`, from `from` on, where `pat` stands.
pub open spec fn find_from(s: Seq<char>, pat: Seq<char>, from: int) -> Option<int>
    decreases s.len() - from + 1,
{
    if from + pat.len() > s.len() {
        None
    } else if occurs_at(s, pat, from) {
        Some(from)
    } else {
        find_from(s, pat, from + 1)
    }
}

/// Texts one after the other, with `sep` between them.
pub open spec fn join(parts: Seq<Seq<char>>, sep: Seq<char>) -> Seq<char>
    decreases parts.len(),
{
    if parts.len() == 0 {
        Seq::empty()
    } else if parts.len() == 1 {
        parts[0]
    } else {
        join(parts.drop_last(), sep) + sep + parts.last()
    }
}

/// The digit for a value below sixteen, with small letters above nine.
pub open spec fn digit(d: nat) -> char {
    if d < 10 {
        (48 + d) as char
    } else {
        (87 + d) as char
    }
}

/// A number in base `base`, without leading zeros.
pub open spec fn digits(n: nat, base: nat) -> Seq<char>
    decreases n,
{
    if base < 2 || n < base {
        seq![digit(n)]
    } else {
        proof {
            assert(n / base < n) by (nonlinear_arith)
                requires
                    base >= 2,
                    n >= base,
            ;
        }
        digits(n / base, base).push(digit(n % base))
    }
}

/// A number in decimal.
pub open spec fn decimal(n: nat) -> Seq<char> {
    digits(n, 10)
}

/// The first present item.
pub open spec fn first_some<T>(s: Seq<Option<T>>) -> Option<T>
    decreases s.len(),
{
    if s.len() == 0 {
        None
    } else {
        match first_some(s.drop_last()) {
            Some(x) => Some(x),
            None => s.last(),
        }
    }
}

/// The present items, in order.
pub open spec fn somes<T>(s: Seq<Option<T>>) -> Seq<T>
    decreases s.len(),
{
    if s.len() == 0 {
        Seq::empty()
    } else {
        match s.last() {
            Some(x) => somes(s.drop_last()).push(x),
            None => somes(s.drop_last()),
        }
    }
}

/// One more item adds at most one present item.
pub proof fn lemma_somes_push<A, B>(s: Seq<A>, x: A, f: spec_fn(A) -> Option<B>)
    ensures
        somes(s.push(x).map_values(f)) == match f(x) {
            Some(y) => somes(s.map_values(f)).push(y),
            None => somes(s.map_values(f)),
        },
{
    assert(s.push(x).map_values(f).drop_last() == s.map_values(f));
    assert(s.push(x).map_values(f).last() == f(x));
}

/// The texts that a list of strings holds.
pub open spec fn texts(v: Seq<String>) -> Seq<Seq<char>> {
    v.map_values(|s: String| s@)
}

/// `String::push` appends one character.
pub assume_specification[ String::push ](s: &mut String, c: char)
    ensures
        final(s)@ == old(s)@.push(c),
;

pub fn chars_of(s: &str) -> (r: Vec<char>)
    ensures
        r@ == s@,
{
    let mut r: Vec<char> = Vec::new();
    for c in it: s.chars()
        invariant
            r@ == s@.take(it.index()),
            it.seq() == s@,
    {
        r.push(c);
    }
    r
}

pub fn string_of(v: &Vec<char>) -> (r: String)
    ensures
        r@ == v@,
{
    let mut r = String::new();
    let mut i: usize = 0;
    while i < v.len()
        invariant
            i <= v.len(),
            r@ == v@.take(i as int),
        decreases v.len() - i,
    {
        r.push(v[i]);
        i += 1;
    }
    r
}

pub fn is_white_char(c: char) -> (r: bool)
    ensures
        r == is_white(c),
{
    let n: u32 = c as u32;
    (0x09 <= n && n <= 0x0D) || n == 0x20 || n == 0x85 || n == 0xA0 || n == 0x1680 || (0x2000 <= n
        && n <= 0x200A) || n == 0x2028 || n == 0x2029 || n == 0x202F || n == 0x205F || n == 0x3000
}

pub fn to_lower_char(c: char) -> (r: char)
    ensures
        r == lower_char(c),
{
    if 'A' <= c && c <= 'Z' {
        (c as u8 + 32) as char
    } else {
        c
    }
}

pub fn to_upper_char(c: char) -> (r: char)
    ensures
        r == upper_char(c),
{
    if 'a' <= c && c <= 'z' {
        (c as u8 - 32) as char
    } else {
        c
    }
}

pub fn to_lower(s: &Vec<char>) -> (r: Vec<char>)
    ensures
        r@ == lower(s@),
{
    let mut r: Vec<char> = Vec::new();
    let mut i: usize = 0;
    while i < s.len()
        invariant
            i <= s.len(),
            r@ == lower(s@.take(i as int)),
        decreases s.len() - i,
    {
        r.push(to_lower_char(s[i]));
        i += 1;
    }
    assert(s@.take(i as int) == s@);
    r
}

pub fn to_upper(s: &Vec<char>) -> (r: Vec<char>)
    ensures
        r@ == upper(s@),
{
    let mut r: Vec<char> = Vec::new();
    let mut i: usize = 0;
    while i < s.len()
        invariant
            i <= s.len(),
            r@ == upper(s@.take(i as int)),
        decreases s.len() - i,
    {
        r.push(to_upper_char(s[i]));
        i += 1;
    }
    assert(s@.take(i as int) == s@);
    r
}

/// The characters from `from` up to `to`.
pub fn slice_chars(s: &Vec<char>, from: usize, to: usize) -> (r: Vec<char>)
    requires
        from <= to <= s.len(),
    ensures
        r@ == s@.subrange(from as int, to as int),
{
    let mut r: Vec<char> = Vec::new();
    let mut i: usize = from;
    while i < to
        invariant
            from <= i <= to <= s.len(),
            r@ == s@.subrange(from as int, i as int),
        decreases to - i,
    {
        r.push(s[i]);
        i += 1;
    }
    r
}

pub fn same_chars(a: &Vec<char>, b: &Vec<char>) -> (r: bool)
    ensures
        r == (a@ == b@),
{
    if a.len() != b.len() {
        return false;
    }
    let mut i: usize = 0;
    while i < a.len()
        invariant
            i <= a.len(),
            a.len() == b.len(),
            a@.take(i as int) == b@.take(i as int),
        decreases a.len() - i,
    {
        if a[i] != b[i] {
            assert(a@[i as int] != b@[i as int]);
            return false;
        }
        i += 1;
    }
    assert(a@.take(i as int) == a@);
    assert(b@.take(i as int) == b@);
    true
}

/// Whether two texts are equal.
pub fn same_text(a: &str, b: &str) -> (r: bool)
    ensures
        r == (a@ == b@),
{
    same_chars(&chars_of(a), &chars_of(b))
}

/// A copy of the text.
pub fn copy_text(s: &str) -> (r: String)
    ensures
        r@ == s@,
{
    s.to_owned()
}

/// Whether `pat` stands in `s` at position `i`.
pub fn stands_at(s: &Vec<char>, pat: &Vec<char>, i: usize) -> (r: bool)
    ensures
        r == occurs_at(s@, pat@, i as int),
{
    if i > s.len() || pat.len() > s.len() - i {
        return false;
    }
    let mut k: usize = 0;
    while k < pat.len()
        invariant
            k <= pat.len(),
            i + pat.len() <= s.len(),
            s@.subrange(i as int, i + k) == pat@.take(k as int),
        decreases pat.len() - k,
    {
        if s[i + k] != pat[k] {
            assert(s@.subrange(i as int, i + pat.len())[k as int] != pat@[k as int]);
            return false;
        }
        k += 1;
    }
    assert(pat@.take(k as int) == pat@);
    true
}

proof fn lemma_prefix_is_occurrence(s: Seq<char>, p: Seq<char>)
    ensures
        p.is_prefix_of(s) == occurs_at(s, p, 0),
{
    if p.len() <= s.len() {
        assert(s.subrange(0, p.len() as int) == s.take(p.len() as int));
    }
}

/// Whether `s` begins with `p`.
pub fn begins_with(s: &Vec<char>, p: &Vec<char>) -> (r: bool)
    ensures
        r == p@.is_prefix_of(s@),
{
    proof {
        lemma_prefix_is_occurrence(s@, p@);
    }
    stands_at(s, p, 0)
}

pub fn find_chars(s: &Vec<char>, pat: &Vec<char>, from: usize) -> (r: Option<usize>)
    requires
        from <= s.len(),
    ensures
        match r {
            Some(i) => find_from(s@, pat@, from as int) == Some(i as int) && from <= i && i
                + pat.len() <= s.len(),
            None => find_from(s@, pat@, from as int) is None,
        },
{
    let mut i: usize = from;
    while i < s.len() && pat.len() <= s.len() - i
        invariant
            from <= i <= s.len(),
            find_from(s@, pat@, from as int) == find_from(s@, pat@, i as int),
        decreases s.len() - i,
    {
        if stands_at(s, pat, i) {
            return Some(i);
        }
        i += 1;
    }
    if stands_at(s, pat, i) {
        return Some(i);
    }
    proof {
        if pat@.len() == 0 {
            assert(s@.subrange(i as int, i as int) == pat@);
        }
    }
    None
}

proof fn lemma_skip_while(s: Seq<char>, p: spec_fn(char) -> bool, n: int)
    requires
        0 <= n <= s.len(),
        forall|i: int| 0 <= i < n ==> p(#[trigger] s[i]),
        n == s.len() || !p(s[n]),
    ensures
        skip_while(s, p) == s.skip(n),
    decreases n,
{
    if n > 0 {
        assert(s.skip(1).skip(n - 1) == s.skip(n));
        lemma_skip_while(s.skip(1), p, n - 1);
    } else {
        assert(s.skip(0) == s);
    }
}

proof fn lemma_drop_while(s: Seq<char>, p: spec_fn(char) -> bool, n: int)
    requires
        0 <= n <= s.len(),
        forall|i: int| n <= i < s.len() ==> p(#[trigger] s[i]),
        n == 0 || !p(s[n - 1]),
    ensures
        drop_while(s, p) == s.take(n),
    decreases s.len() - n,
{
    if n < s.len() {
        assert(s.drop_last().take(n) == s.take(n));
        lemma_drop_while(s.drop_last(), p, n);
    } else {
        assert(s.take(n) == s);
    }
}

/// The text without white space at either end.
pub fn trim_chars(s: &Vec<char>) -> (r: Vec<char>)
    ensures
        r@ == trim(s@),
{
    let ghost p = |c: char| is_white(c);
    let mut from: usize = 0;
    while from < s.len() && is_white_char(s[from])
        invariant
            from <= s.len(),
            p == (|c: char| is_white(c)),
            forall|i: int| 0 <= i < from ==> p(#[trigger] s@[i]),
        decreases s.len() - from,
    {
        from += 1;
    }
    let mut to: usize = s.len();
    while to > from && is_white_char(s[to - 1])
        invariant
            from <= to <= s.len(),
            p == (|c: char| is_white(c)),
            forall|i: int| to <= i < s.len() ==> p(#[trigger] s@[i]),
        decreases to,
    {
        to -= 1;
    }
    proof {
        lemma_skip_while(s@, p, from as int);
        lemma_drop_while(s@.skip(from as int), p, to - from);
        assert(s@.skip(from as int).take(to - from) == s@.subrange(from as int, to as int));
    }
    slice_chars(s, from, to)
}

/// The text without the characters `c` in front.
pub fn skip_char(s: &Vec<char>, c: char) -> (r: Vec<char>)
    ensures
        r@ == skip_while(s@, |x: char| x == c),
{
    let ghost p = |x: char| x == c;
    let mut from: usize = 0;
    while from < s.len() && s[from] == c
        invariant
            from <= s.len(),
            p == (|x: char| x == c),
            forall|i: int| 0 <= i < from ==> p(#[trigger] s@[i]),
        decreases s.len() - from,
    {
        from += 1;
    }
    proof {
        lemma_skip_while(s@, p, from as int);
        assert(s@.skip(from as int) == s@.subrange(from as int, s@.len() as int));
    }
    slice_chars(s, from, s.len())
}

/// The text without the characters `c` at its end.
pub fn drop_char(s: &Vec<char>, c: char) -> (r: Vec<char>)
    ensures
        r@ == drop_while(s@, |x: char| x == c),
{
    let ghost p = |x: char| x == c;
    let mut to: usize = s.len();
    while to > 0 && s[to - 1] == c
        invariant
            to <= s.len(),
            p == (|x: char| x == c),
            forall|i: int| to <= i < s.len() ==> p(#[trigger] s@[i]),
        decreases to,
    {
        to -= 1;
    }
    proof {
        lemma_drop_while(s@, p, to as int);
        assert(s@.take(to as int) == s@.subrange(0, to as int));
    }
    slice_chars(s, 0, to)
}

/// The text without any copies of `prefix` in front.
pub fn skip_prefix_copies(s: &Vec<char>, prefix: &Vec<char>) -> (r: Vec<char>)
    ensures
        r@ == skip_prefixes(s@, prefix@),
{
    let mut r = slice_chars(s, 0, s.len());
    assert(r@ == s@);
    while prefix.len() > 0 && begins_with(&r, prefix)
        invariant
            skip_prefixes(s@, prefix@) == skip_prefixes(r@, prefix@),
        decreases r.len(),
    {
        assert(r@.subrange(prefix@.len() as int, r@.len() as int) == r@.skip(prefix@.len() as int));
        r = slice_chars(&r, prefix.len(), r.len());
    }
    r
}

/// The characters that each item of a list holds.
pub open spec fn char_lists(v: Seq<Vec<char>>) -> Seq<Seq<char>> {
    v.map_values(|s: Vec<char>| s@)
}

/// A copy of a list of texts.
pub fn copy_texts(v: &Vec<String>) -> (r: Vec<String>)
    ensures
        texts(r@) == texts(v@),
{
    let mut r: Vec<String> = Vec::new();
    let mut i: usize = 0;
    while i < v.len()
        invariant
            i <= v.len(),
            r@.len() == i,
            forall|k: int| 0 <= k < i ==> (#[trigger] r@[k])@ == v@[k]@,
        decreases v.len() - i,
    {
        r.push(v[i].clone());
        i += 1;
    }
    assert(texts(r@) == texts(v@));
    r
}

/// The pieces of the text between occurrences of `sep`.
pub fn split_chars(s: &Vec<char>, sep: char) -> (r: Vec<Vec<char>>)
    ensures
        char_lists(r@) == pieces(s@, sep),
        r@.len() > 0,
{
    let mut done: Vec<Vec<char>> = Vec::new();
    let mut current: Vec<char> = Vec::new();
    let mut i: usize = 0;
    assert(s@.take(0) == Seq::<char>::empty());
    assert(char_lists(done@).push(current@) == seq![Seq::<char>::empty()]);
    while i < s.len()
        invariant
            i <= s.len(),
            char_lists(done@).push(current@) == pieces(s@.take(i as int), sep),
        decreases s.len() - i,
    {
        assert(s@.take(i + 1).drop_last() == s@.take(i as int));
        let ghost before = char_lists(done@).push(current@);
        assert(before.drop_last() == char_lists(done@));
        if s[i] == sep {
            let ghost old_done = done@;
            done.push(current);
            current = Vec::new();
            assert(char_lists(done@) == before);
        } else {
            current.push(s[i]);
        }
        i += 1;
    }
    assert(s@.take(i as int) == s@);
    let ghost whole = char_lists(done@).push(current@);
    done.push(current);
    assert(char_lists(done@) == whole);
    done
}

/// The lines of the text.
pub fn split_lines(s: &Vec<char>) -> (r: Vec<Vec<char>>)
    ensures
        char_lists(r@) == lines(s@),
{
    let ps = split_chars(s, '\n');
    let n: usize = ps.len() - 1;
    let ghost ended = char_lists(ps@).drop_last().map_values(|l: Seq<char>| strip_return(l));
    let mut r: Vec<Vec<char>> = Vec::new();
    let mut i: usize = 0;
    while i < n
        invariant
            i <= n,
            ps@.len() == n + 1,
            ended == char_lists(ps@).drop_last().map_values(|l: Seq<char>| strip_return(l)),
            char_lists(r@) == ended.take(i as int),
        decreases n - i,
    {
        let l = &ps[i];
        let end: usize = if l.len() > 0 && l[l.len() - 1] == '\r' {
            l.len() - 1
        } else {
            l.len()
        };
        let line = slice_chars(l, 0, end);
        let ghost old_r = r@;
        assert(line@ == strip_return(l@));
        r.push(line);
        assert(char_lists(r@) == char_lists(old_r).push(line@));
        assert(ended.take(i + 1) == ended.take(i as int).push(ended[i as int]));
        i += 1;
    }
    assert(ended.take(n as int) == ended);
    if ps[n].len() > 0 {
        let ghost old_r = r@;
        let last = slice_chars(&ps[n], 0, ps[n].len());
        assert(last@ == ps@[n as int]@);
        r.push(last);
        assert(char_lists(r@) == char_lists(old_r).push(last@));
    }
    assert(char_lists(ps@).last() == ps@[n as int]@);
    r
}

/// Texts one after the other, with `sep` between them.
pub fn join_texts(parts: &Vec<String>, sep: &str) -> (r: String)
    ensures
        r@ == join(texts(parts@), sep@),
{
    let mut r = String::new();
    let mut i: usize = 0;
    while i < parts.len()
        invariant
            i <= parts.len(),
            r@ == join(texts(parts@).take(i as int), sep@),
        decreases parts.len() - i,
    {
        let ghost all = texts(parts@);
        assert(all.take(i + 1).drop_last() == all.take(i as int));
        if i > 0 {
            r.append(sep);
        }
        r.append(parts[i].as_str());
        if i == 0 {
            assert(r@ == parts@[0]@);
        }
        i += 1;
    }
    assert(texts(parts@).take(i as int) == texts(parts@));
    r
}

pub fn digit_char(d: u32) -> (r: char)
    requires
        d < 16,
    ensures
        r == digit(d as nat),
{
    if d < 10 {
        (48 + d as u8) as char
    } else {
        (87 + d as u8) as char
    }
}

/// A number in base `base`.
pub fn to_digits(n: u64, base: u32) -> (r: String)
    requires
        2 <= base <= 16,
    ensures
        r@ == digits(n as nat, base as nat),
    decreases n,
{
    if n < base as u64 {
        let mut r = String::new();
        r.push(digit_char(n as u32));
        assert(r@ == seq![digit(n as nat)]);
        r
    } else {
        assert(n / base as u64 <= n / 2) by (nonlinear_arith)
            requires
                base >= 2,
        ;
        let mut r = to_digits(n / (base as u64), base);
        r.push(digit_char((n % (base as u64)) as u32));
        r
    }
}

/// A number in decimal.
pub fn to_decimal(n: u64) -> (r: String)
    ensures
        r@ == decimal(n as nat),
{
    to_digits(n, 10)
}

} // verus!
