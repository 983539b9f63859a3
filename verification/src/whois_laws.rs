//! What holds of WHOIS answers, whatever their lines say.
use vstd::prelude::*;

use crate::entity::{Confidence, EntityType, EntityView, RelationKindView, RelationView};
use crate::json::{text_or_null, JsonView};
use crate::text::{
    drop_while, first_some, is_white, lines, lower, lower_char, skip_prefixes, skip_while, trim,
};
use crate::text_laws::{
    law_dropping_ends_at_the_last_other, law_first_line, law_no_option_counts,
    law_prefixes_are_skipped, law_skipping_ends_at_the_first_other,
    law_text_in_white_space_is_left, law_the_first_option_counts, law_trimmed_text_stays,
};
use crate::whois::{
    answer_drafts, detail, field, first_server, origin_in, range_in, referral, referral_behind,
    referral_in, server_after, value_behind, value_in, MAX_REFERRALS,
};

verus! {

/// Whether a value can be told from what stands around it: it is not empty,
/// stands in one line, has no white space at its ends, and does not begin with
/// a colon.
pub open spec fn plain_value(v: Seq<char>) -> bool {
    &&& v.len() > 0
    &&& !v.contains('\n')
    &&& !is_white(v[0])
    &&& !is_white(v.last())
    &&& v[0] != ':'
}

/// Whether a line begins with a label, in whatever case either is written.
pub open spec fn has_label(line: Seq<char>, label: Seq<char>) -> bool {
    label.len() <= line.len() && forall|i: int|
        0 <= i < label.len() ==> lower_char(#[trigger] label[i]) == lower_char(line[i])
}

proof fn lemma_has_label(line: Seq<char>, label: Seq<char>)
    ensures
        lower(label).is_prefix_of(lower(line)) == has_label(line, label),
{
    if has_label(line, label) {
        assert(lower(line).take(label.len() as int) =~= lower(label));
    }
    if lower(label).is_prefix_of(lower(line)) {
        assert forall|i: int| 0 <= i < label.len() implies lower_char(#[trigger] label[i])
            == lower_char(line[i]) by {
            assert(lower(label)[i] == lower(line)[i]);
        }
    }
}

proof fn lemma_value_is_left(
    gap: Seq<char>,
    colons: Seq<char>,
    space: Seq<char>,
    value: Seq<char>,
    end: Seq<char>,
)
    requires
        plain_value(value),
        forall|i: int| 0 <= i < gap.len() ==> is_white(#[trigger] gap[i]),
        forall|i: int| 0 <= i < colons.len() ==> #[trigger] colons[i] == ':',
        forall|i: int| 0 <= i < space.len() ==> is_white(#[trigger] space[i]),
        forall|i: int| 0 <= i < end.len() ==> is_white(#[trigger] end[i]),
    ensures
        trim(skip_while(trim(gap + colons + space + value + end), |c: char| c == ':')) == value,
{
    let none = Seq::<char>::empty();
    let colon = |c: char| c == ':';
    let all = gap + colons + space + value + end;
    assert(!is_white(':'));
    if colons.len() == 0 {
        let before = gap + space;
        assert(all =~= before + value + end);
        assert forall|i: int| 0 <= i < before.len() implies is_white(#[trigger] before[i]) by {
            if i < gap.len() {
                assert(before[i] == gap[i]);
            } else {
                assert(before[i] == space[i - gap.len()]);
            }
        }
        law_text_in_white_space_is_left(before, value, end);
        assert(!colon(value[0]));
        assert(skip_while(value, colon) == value);
        law_trimmed_text_stays(value);
    } else {
        let core = colons + space + value;
        assert(all =~= gap + core + end);
        assert(core[0] == colons[0]);
        assert(core.last() == value.last());
        law_text_in_white_space_is_left(gap, core, end);
        let rest = space + value;
        assert forall|i: int| 0 <= i < colons.len() implies colon(#[trigger] core[i]) by {
            assert(core[i] == colons[i]);
        }
        assert(core[colons.len() as int] == rest[0]);
        if space.len() > 0 {
            assert(rest[0] == space[0]);
        } else {
            assert(rest[0] == value[0]);
        }
        assert(!colon(rest[0]));
        lemma_skipped(core, colon, colons.len() as int);
        assert(core.skip(colons.len() as int) =~= rest);
        law_text_in_white_space_is_left(space, value, none);
        assert(space + value + none =~= rest);
    }
}

proof fn lemma_skipped(s: Seq<char>, p: spec_fn(char) -> bool, n: int)
    requires
        0 <= n < s.len(),
        forall|i: int| 0 <= i < n ==> p(#[trigger] s[i]),
        !p(s[n]),
    ensures
        skip_while(s, p) == s.skip(n),
{
    law_skipping_ends_at_the_first_other(s, p);
    let k = s.len() - skip_while(s, p).len();
    if k < n {
        assert(skip_while(s, p)[0] == s[k]);
        assert(p(s[k]));
    } else if k > n {
        assert(p(s[n]));
    }
}

/// What stands in a line behind a label is the value of the label, without the
/// white space and the colons in front of it and the white space behind.
pub proof fn law_the_value_stands_behind_the_label(
    written: Seq<char>,
    gap: Seq<char>,
    colons: Seq<char>,
    space: Seq<char>,
    value: Seq<char>,
    end: Seq<char>,
    label: Seq<char>,
)
    requires
        written.len() == label.len(),
        has_label(written, label),
        forall|i: int| 0 <= i < gap.len() ==> is_white(#[trigger] gap[i]),
        forall|i: int| 0 <= i < colons.len() ==> #[trigger] colons[i] == ':',
        forall|i: int| 0 <= i < space.len() ==> is_white(#[trigger] space[i]),
        forall|i: int| 0 <= i < end.len() ==> is_white(#[trigger] end[i]),
        plain_value(value),
    ensures
        value_behind(written + gap + colons + space + value + end, label) == Some(value),
{
    let line = written + gap + colons + space + value + end;
    assert forall|i: int| 0 <= i < label.len() implies lower_char(#[trigger] label[i])
        == lower_char(line[i]) by {
        assert(line[i] == written[i]);
    }
    lemma_has_label(line, label);
    assert(line.skip(label.len() as int) =~= gap + colons + space + value + end);
    lemma_value_is_left(gap, colons, space, value, end);
}

proof fn lemma_value_behind_space(written: Seq<char>, value: Seq<char>, label: Seq<char>)
    requires
        written.len() == label.len(),
        has_label(written, label),
        plain_value(value),
    ensures
        value_behind(written + seq![' '] + value, label) == Some(value),
{
    let none = Seq::<char>::empty();
    law_the_value_stands_behind_the_label(written, seq![' '], none, none, value, none, label);
    assert(written + seq![' '] + none + none + value + none =~= written + seq![' '] + value);
}

/// A label with nothing but white space behind it says nothing.
pub proof fn law_a_label_without_a_value_says_nothing(
    written: Seq<char>,
    gap: Seq<char>,
    label: Seq<char>,
)
    requires
        written.len() == label.len(),
        forall|i: int| 0 <= i < gap.len() ==> is_white(#[trigger] gap[i]),
    ensures
        value_behind(written + gap, label) is None,
{
    let none = Seq::<char>::empty();
    assert((written + gap).skip(label.len() as int) =~= gap);
    law_text_in_white_space_is_left(gap, none, none);
    assert(gap + none + none =~= gap);
    law_trimmed_text_stays(none);
}

/// A line without a label says nothing about it.
pub proof fn law_a_line_without_the_label_says_nothing(line: Seq<char>, label: Seq<char>)
    requires
        !has_label(line, label),
    ensures
        value_behind(line, label) is None,
{
    lemma_has_label(line, label);
}

/// The first line that has one of the labels gives the value; lines without
/// any of them are passed over.
pub proof fn law_the_first_labelled_line_counts(
    line: Seq<char>,
    rest: Seq<char>,
    labels: Seq<Seq<char>>,
)
    requires
        !line.contains('\n'),
        line.len() > 0 ==> line.last() != '\r',
    ensures
        value_in(line, labels) is Some ==> field(line + seq!['\n'] + rest, labels) == value_in(
            line,
            labels,
        ),
        (forall|i: int| 0 <= i < labels.len() ==> !has_label(line, #[trigger] labels[i])) ==> field(
            line + seq!['\n'] + rest,
            labels,
        ) == field(rest, labels),
        field(Seq::empty(), labels) is None,
{
    law_first_line(line, rest);
    let pick = |l: Seq<char>| value_in(l, labels);
    let others = lines(rest).map_values(pick);
    let all = (seq![line] + lines(rest)).map_values(pick);
    assert(all =~= seq![value_in(line, labels)] + others);
    if value_in(line, labels) is Some {
        law_the_first_option_counts(all, 0);
    }
    if forall|i: int| 0 <= i < labels.len() ==> !has_label(line, #[trigger] labels[i]) {
        let found = labels.map_values(|l: Seq<char>| value_behind(line, l));
        assert forall|i: int| 0 <= i < found.len() implies (#[trigger] found[i]) is None by {
            law_a_line_without_the_label_says_nothing(line, labels[i]);
        }
        law_no_option_counts(found);
        lemma_skip_first(all, others);
    }
    assert(Seq::<Seq<char>>::empty().map_values(pick) =~= Seq::<Option<Seq<char>>>::empty());
}

proof fn lemma_skip_first<T>(all: Seq<Option<T>>, others: Seq<Option<T>>)
    requires
        all == seq![None::<T>] + others,
    ensures
        first_some(all) == first_some(others),
    decreases others.len(),
{
    if others.len() == 0 {
        assert(all == seq![None::<T>]);
        law_no_option_counts(all);
    } else {
        assert(all.drop_last() == seq![None::<T>] + others.drop_last());
        assert(all.last() == others.last());
        lemma_skip_first(all.drop_last(), others.drop_last());
    }
}

/// The value of a labelled line, where the label is the given one of a list
/// and the line has no earlier one.
proof fn lemma_value_in(label: Seq<char>, value: Seq<char>, labels: Seq<Seq<char>>, n: int)
    requires
        0 <= n < labels.len(),
        label == labels[n],
        plain_value(value),
        forall|i: int|
            0 <= i < n ==> !has_label(label + seq![' '] + value, #[trigger] labels[i]),
    ensures
        value_in(label + seq![' '] + value, labels) == Some(value),
{
    let line = label + seq![' '] + value;
    let found = labels.map_values(|l: Seq<char>| value_behind(line, l));
    assert forall|i: int| 0 <= i < n implies (#[trigger] found[i]) is None by {
        law_a_line_without_the_label_says_nothing(line, labels[i]);
    }
    lemma_value_behind_space(label, value, label);
    assert(found[n] == Some(value));
    law_the_first_option_counts(found, n);
}

/// A line with a label and a value.
pub open spec fn labelled(label: Seq<char>, value: Seq<char>) -> Seq<char> {
    label + seq![' '] + value
}

proof fn lemma_labelled_line(label: Seq<char>, value: Seq<char>)
    requires
        plain_value(value),
        !label.contains('\n'),
    ensures
        !labelled(label, value).contains('\n'),
        labelled(label, value).len() > 0,
        labelled(label, value).last() != '\r',
{
    let line = labelled(label, value);
    assert(line.last() == value.last());
    if line.contains('\n') {
        let k = line.index_of('\n');
        if k < label.len() {
            assert(label[k] == '\n');
        } else if k > label.len() {
            assert(value[k - label.len() - 1] == '\n');
        }
    }
}

/// Whether a line can be read as a date of registration.
pub open spec fn mentions_creation(line: Seq<char>) -> bool {
    has_label(line, "Creation Date:"@) || has_label(line, "Registered:"@) || has_label(
        line,
        "created:"@,
    )
}

/// Whether a line can be read as a date of expiry.
pub open spec fn mentions_expiry(line: Seq<char>) -> bool {
    has_label(line, "Registry Expiry Date:"@) || has_label(line, "Expiry Date:"@) || has_label(
        line,
        "Expires:"@,
    )
}

/// Whether a line can be read as the name of a registrar.
pub open spec fn mentions_registrar(line: Seq<char>) -> bool {
    has_label(line, "Registrar:"@) || has_label(line, "OrgName:"@) || has_label(
        line,
        "Organization:"@,
    ) || has_label(line, "org-name:"@)
}

/// Whether a line can be read as the range of a network.
pub open spec fn mentions_range(line: Seq<char>) -> bool {
    has_label(line, "CIDR:"@) || has_label(line, "inetnum:"@)
}

/// Whether a line can be read as the origin of a network.
pub open spec fn mentions_origin(line: Seq<char>) -> bool {
    has_label(line, "OriginAS:"@) || has_label(line, "origin:"@)
}

spec fn creation_labels() -> Seq<Seq<char>> {
    seq!["Creation Date:"@, "Registered:"@, "created:"@]
}

spec fn expiry_labels() -> Seq<Seq<char>> {
    seq!["Registry Expiry Date:"@, "Expiry Date:"@, "Expires:"@, "expires:"@]
}

spec fn registrar_labels() -> Seq<Seq<char>> {
    seq!["Registrar:"@, "OrgName:"@, "Organization:"@, "org-name:"@]
}

spec fn range_labels() -> Seq<Seq<char>> {
    seq!["CIDR:"@, "inetnum:"@]
}

spec fn origin_labels() -> Seq<Seq<char>> {
    seq!["OriginAS:"@, "origin:"@]
}

/// The member of an entity's detail, as text.
pub open spec fn said(text: Seq<char>, key: Seq<char>) -> JsonView {
    detail(text)->Object_0[key]
}

proof fn lemma_detail(text: Seq<char>)
    ensures
        detail(text).member("registrar"@) == Some(said(text, "registrar"@)),
        detail(text).member("created"@) == Some(said(text, "created"@)),
        detail(text).member("expires"@) == Some(said(text, "expires"@)),
        said(text, "registrar"@) == text_or_null(field(text, registrar_labels())),
        said(text, "created"@) == text_or_null(field(text, creation_labels())),
        said(text, "expires"@) == text_or_null(field(text, expiry_labels())),
        range_in(text) == field(text, range_labels()),
        origin_in(text) == field(text, origin_labels()),
{
    reveal_strlit("registrar");
    reveal_strlit("created");
    reveal_strlit("expires");
    assert("registrar"@.len() != "created"@.len());
    assert("registrar"@.len() != "expires"@.len());
    assert("created"@[0] != "expires"@[0]);
}

/// An empty answer says nothing: no registrar, no dates, no range, no origin.
pub proof fn law_an_empty_answer_says_nothing()
    ensures
        detail(Seq::empty()).member("registrar"@) == Some(JsonView::Null),
        detail(Seq::empty()).member("created"@) == Some(JsonView::Null),
        detail(Seq::empty()).member("expires"@) == Some(JsonView::Null),
        range_in(Seq::empty()) is None,
        origin_in(Seq::empty()) is None,
{
    let none = Seq::<char>::empty();
    lemma_detail(none);
    law_the_first_labelled_line_counts(none, none, registrar_labels());
    law_the_first_labelled_line_counts(none, none, creation_labels());
    law_the_first_labelled_line_counts(none, none, expiry_labels());
    law_the_first_labelled_line_counts(none, none, range_labels());
    law_the_first_labelled_line_counts(none, none, origin_labels());
}

/// A line that mentions nothing of a kind changes nothing that the rest of an
/// answer says of that kind.
pub proof fn law_other_lines_change_nothing(line: Seq<char>, rest: Seq<char>)
    requires
        !line.contains('\n'),
        line.len() > 0 ==> line.last() != '\r',
    ensures
        ({
            let text = line + seq!['\n'] + rest;
            &&& !mentions_registrar(line) ==> detail(text).member("registrar"@) == detail(
                rest,
            ).member("registrar"@)
            &&& !mentions_creation(line) ==> detail(text).member("created"@) == detail(rest).member(
                "created"@,
            )
            &&& !mentions_expiry(line) ==> detail(text).member("expires"@) == detail(rest).member(
                "expires"@,
            )
            &&& !mentions_range(line) ==> range_in(text) == range_in(rest)
            &&& !mentions_origin(line) ==> origin_in(text) == origin_in(rest)
        }),
{
    let text = line + seq!['\n'] + rest;
    lemma_detail(text);
    lemma_detail(rest);
    lemma_same_label(line);
    law_the_first_labelled_line_counts(line, rest, registrar_labels());
    law_the_first_labelled_line_counts(line, rest, creation_labels());
    law_the_first_labelled_line_counts(line, rest, expiry_labels());
    law_the_first_labelled_line_counts(line, rest, range_labels());
    law_the_first_labelled_line_counts(line, rest, origin_labels());
}

/// `Expires:` and `expires:` are the same label.
proof fn lemma_same_label(line: Seq<char>)
    ensures
        has_label(line, "Expires:"@) == has_label(line, "expires:"@),
{
    let a = "Expires:"@;
    let b = "expires:"@;
    reveal_strlit("Expires:");
    reveal_strlit("expires:");
    assert(lower_char('E') == 'e');
    assert(lower_char('e') == 'e');
    assert forall|i: int| 0 <= i < 8 implies lower_char(#[trigger] a[i]) == lower_char(b[i]) by {
        if i > 0 {
            assert(a[i] == b[i]);
        }
    }
    if has_label(line, a) {
        assert forall|i: int| 0 <= i < b.len() implies lower_char(#[trigger] b[i]) == lower_char(
            line[i],
        ) by {
            assert(lower_char(a[i]) == lower_char(line[i]));
        }
    }
    if has_label(line, b) {
        assert forall|i: int| 0 <= i < a.len() implies lower_char(#[trigger] a[i]) == lower_char(
            line[i],
        ) by {
            assert(lower_char(b[i]) == lower_char(line[i]));
        }
    }
}

/// A first line `Creation Date:` gives the date of registration, and says
/// nothing else.
pub proof fn law_a_creation_date_is_read(value: Seq<char>, rest: Seq<char>)
    requires
        plain_value(value),
    ensures
        ({
            let text = "Creation Date: "@ + value + seq!['\n'] + rest;
            &&& detail(text).member("created"@) == Some(JsonView::Text(value))
            &&& detail(text).member("expires"@) == detail(rest).member("expires"@)
            &&& detail(text).member("registrar"@) == detail(rest).member("registrar"@)
            &&& range_in(text) == range_in(rest)
            &&& origin_in(text) == origin_in(rest)
        }),
{
    let label = "Creation Date:"@;
    let line = labelled(label, value);
    reveal_strlit("Creation Date:");
    reveal_strlit("Creation Date: ");
    assert("Creation Date: "@ =~= label + seq![' ']);
    assert(!label.contains('\n'));
    lemma_labelled_line(label, value);
    lemma_value_in(label, value, creation_labels(), 0);
    law_the_first_labelled_line_counts(line, rest, creation_labels());
    lemma_detail(line + seq!['\n'] + rest);
    assert(line[0] == 'C' && line[1] == 'r');
    lemma_lowered();
    lemma_label_starts();
    lemma_no_label(line, "Registry Expiry Date:"@, 0);
    lemma_no_label(line, "Expiry Date:"@, 0);
    lemma_no_label(line, "Expires:"@, 0);
    lemma_no_label(line, "Registrar:"@, 0);
    lemma_no_label(line, "OrgName:"@, 0);
    lemma_no_label(line, "Organization:"@, 0);
    lemma_no_label(line, "org-name:"@, 0);
    lemma_no_label(line, "CIDR:"@, 1);
    lemma_no_label(line, "inetnum:"@, 0);
    lemma_no_label(line, "OriginAS:"@, 0);
    lemma_no_label(line, "origin:"@, 0);
    law_other_lines_change_nothing(line, rest);
}

/// A first line `Registry Expiry Date:` gives the date of expiry, and says
/// nothing else.
pub proof fn law_an_expiry_date_is_read(value: Seq<char>, rest: Seq<char>)
    requires
        plain_value(value),
    ensures
        ({
            let text = "Registry Expiry Date: "@ + value + seq!['\n'] + rest;
            &&& detail(text).member("expires"@) == Some(JsonView::Text(value))
            &&& detail(text).member("created"@) == detail(rest).member("created"@)
            &&& detail(text).member("registrar"@) == detail(rest).member("registrar"@)
            &&& range_in(text) == range_in(rest)
            &&& origin_in(text) == origin_in(rest)
        }),
{
    let label = "Registry Expiry Date:"@;
    let line = labelled(label, value);
    reveal_strlit("Registry Expiry Date:");
    reveal_strlit("Registry Expiry Date: ");
    assert("Registry Expiry Date: "@ =~= label + seq![' ']);
    assert(!label.contains('\n'));
    lemma_labelled_line(label, value);
    lemma_value_in(label, value, expiry_labels(), 0);
    law_the_first_labelled_line_counts(line, rest, expiry_labels());
    lemma_detail(line + seq!['\n'] + rest);
    assert(line[0] == 'R' && line[6] == 'r' && line[7] == 'y');
    lemma_lowered();
    lemma_label_starts();
    lemma_no_label(line, "Creation Date:"@, 0);
    lemma_no_label(line, "Registered:"@, 6);
    lemma_no_label(line, "created:"@, 0);
    lemma_no_label(line, "Registrar:"@, 7);
    lemma_no_label(line, "OrgName:"@, 0);
    lemma_no_label(line, "Organization:"@, 0);
    lemma_no_label(line, "org-name:"@, 0);
    lemma_no_label(line, "CIDR:"@, 0);
    lemma_no_label(line, "inetnum:"@, 0);
    lemma_no_label(line, "OriginAS:"@, 0);
    lemma_no_label(line, "origin:"@, 0);
    law_other_lines_change_nothing(line, rest);
}

/// A first line `Registrar:` gives the registrar, and says nothing else.
pub proof fn law_a_registrar_is_read(value: Seq<char>, rest: Seq<char>)
    requires
        plain_value(value),
    ensures
        ({
            let text = "Registrar: "@ + value + seq!['\n'] + rest;
            &&& detail(text).member("registrar"@) == Some(JsonView::Text(value))
            &&& detail(text).member("created"@) == detail(rest).member("created"@)
            &&& detail(text).member("expires"@) == detail(rest).member("expires"@)
            &&& range_in(text) == range_in(rest)
            &&& origin_in(text) == origin_in(rest)
        }),
{
    let label = "Registrar:"@;
    let line = labelled(label, value);
    reveal_strlit("Registrar:");
    reveal_strlit("Registrar: ");
    assert("Registrar: "@ =~= label + seq![' ']);
    assert(!label.contains('\n'));
    lemma_labelled_line(label, value);
    lemma_value_in(label, value, registrar_labels(), 0);
    law_the_first_labelled_line_counts(line, rest, registrar_labels());
    lemma_detail(line + seq!['\n'] + rest);
    assert(line[0] == 'R' && line[6] == 'r' && line[7] == 'a');
    lemma_lowered();
    lemma_label_starts();
    lemma_no_label(line, "Creation Date:"@, 0);
    lemma_no_label(line, "Registered:"@, 6);
    lemma_no_label(line, "created:"@, 0);
    lemma_no_label(line, "Registry Expiry Date:"@, 7);
    lemma_no_label(line, "Expiry Date:"@, 0);
    lemma_no_label(line, "Expires:"@, 0);
    lemma_no_label(line, "CIDR:"@, 0);
    lemma_no_label(line, "inetnum:"@, 0);
    lemma_no_label(line, "OriginAS:"@, 0);
    lemma_no_label(line, "origin:"@, 0);
    law_other_lines_change_nothing(line, rest);
}

/// A first line `CIDR:` gives the range of the network, and says nothing else.
pub proof fn law_a_range_is_read(value: Seq<char>, rest: Seq<char>)
    requires
        plain_value(value),
    ensures
        ({
            let text = "CIDR: "@ + value + seq!['\n'] + rest;
            &&& range_in(text) == Some(value)
            &&& origin_in(text) == origin_in(rest)
            &&& detail(text).member("registrar"@) == detail(rest).member("registrar"@)
            &&& detail(text).member("created"@) == detail(rest).member("created"@)
            &&& detail(text).member("expires"@) == detail(rest).member("expires"@)
        }),
{
    let label = "CIDR:"@;
    let line = labelled(label, value);
    reveal_strlit("CIDR:");
    reveal_strlit("CIDR: ");
    assert("CIDR: "@ =~= label + seq![' ']);
    assert(!label.contains('\n'));
    lemma_labelled_line(label, value);
    lemma_value_in(label, value, range_labels(), 0);
    law_the_first_labelled_line_counts(line, rest, range_labels());
    lemma_detail(line + seq!['\n'] + rest);
    assert(line[0] == 'C' && line[1] == 'I');
    lemma_lowered();
    lemma_label_starts();
    lemma_no_label(line, "Creation Date:"@, 1);
    lemma_no_label(line, "Registered:"@, 0);
    lemma_no_label(line, "created:"@, 1);
    lemma_no_label(line, "Registry Expiry Date:"@, 0);
    lemma_no_label(line, "Expiry Date:"@, 0);
    lemma_no_label(line, "Expires:"@, 0);
    lemma_no_label(line, "Registrar:"@, 0);
    lemma_no_label(line, "OrgName:"@, 0);
    lemma_no_label(line, "Organization:"@, 0);
    lemma_no_label(line, "org-name:"@, 0);
    lemma_no_label(line, "OriginAS:"@, 0);
    lemma_no_label(line, "origin:"@, 0);
    law_other_lines_change_nothing(line, rest);
}

/// A first line `OriginAS:` gives the origin of the network, and says nothing
/// else.
pub proof fn law_an_origin_is_read(value: Seq<char>, rest: Seq<char>)
    requires
        plain_value(value),
    ensures
        ({
            let text = "OriginAS: "@ + value + seq!['\n'] + rest;
            &&& origin_in(text) == Some(value)
            &&& range_in(text) == range_in(rest)
            &&& detail(text).member("registrar"@) == detail(rest).member("registrar"@)
            &&& detail(text).member("created"@) == detail(rest).member("created"@)
            &&& detail(text).member("expires"@) == detail(rest).member("expires"@)
        }),
{
    let label = "OriginAS:"@;
    let line = labelled(label, value);
    reveal_strlit("OriginAS:");
    reveal_strlit("OriginAS: ");
    assert("OriginAS: "@ =~= label + seq![' ']);
    assert(!label.contains('\n'));
    lemma_labelled_line(label, value);
    lemma_value_in(label, value, origin_labels(), 0);
    law_the_first_labelled_line_counts(line, rest, origin_labels());
    lemma_detail(line + seq!['\n'] + rest);
    assert(line[0] == 'O' && line[2] == 'i');
    lemma_lowered();
    lemma_label_starts();
    lemma_no_label(line, "Creation Date:"@, 0);
    lemma_no_label(line, "Registered:"@, 0);
    lemma_no_label(line, "created:"@, 0);
    lemma_no_label(line, "Registry Expiry Date:"@, 0);
    lemma_no_label(line, "Expiry Date:"@, 0);
    lemma_no_label(line, "Expires:"@, 0);
    lemma_no_label(line, "Registrar:"@, 0);
    lemma_no_label(line, "OrgName:"@, 2);
    lemma_no_label(line, "Organization:"@, 2);
    lemma_no_label(line, "org-name:"@, 2);
    lemma_no_label(line, "CIDR:"@, 0);
    lemma_no_label(line, "inetnum:"@, 0);
    law_other_lines_change_nothing(line, rest);
}

proof fn lemma_no_label(line: Seq<char>, label: Seq<char>, i: int)
    requires
        0 <= i < label.len(),
        i < line.len(),
        lower_char(label[i]) != lower_char(line[i]),
    ensures
        !has_label(line, label),
{
}

proof fn lemma_lowered()
    ensures
        lower_char('C') == 'c',
        lower_char('E') == 'e',
        lower_char('I') == 'i',
        lower_char('O') == 'o',
        lower_char('R') == 'r',
        lower_char('a') == 'a',
        lower_char('c') == 'c',
        lower_char('e') == 'e',
        lower_char('g') == 'g',
        lower_char('i') == 'i',
        lower_char('o') == 'o',
        lower_char('r') == 'r',
        lower_char('y') == 'y',
{
}

proof fn lemma_label_starts()
    ensures
        "Creation Date:"@.len() == 14 && "Creation Date:"@[0] == 'C' && "Creation Date:"@[1] == 'r',
        "Registered:"@.len() == 11 && "Registered:"@[0] == 'R' && "Registered:"@[6] == 'e',
        "created:"@.len() == 8 && "created:"@[0] == 'c' && "created:"@[1] == 'r',
        "Registry Expiry Date:"@.len() == 21 && "Registry Expiry Date:"@[0] == 'R'
            && "Registry Expiry Date:"@[7] == 'y',
        "Expiry Date:"@.len() == 12 && "Expiry Date:"@[0] == 'E',
        "Expires:"@.len() == 8 && "Expires:"@[0] == 'E',
        "Registrar:"@.len() == 10 && "Registrar:"@[0] == 'R' && "Registrar:"@[7] == 'a',
        "OrgName:"@.len() == 8 && "OrgName:"@[0] == 'O' && "OrgName:"@[2] == 'g',
        "Organization:"@.len() == 13 && "Organization:"@[0] == 'O' && "Organization:"@[2] == 'g',
        "org-name:"@.len() == 9 && "org-name:"@[0] == 'o' && "org-name:"@[2] == 'g',
        "CIDR:"@.len() == 5 && "CIDR:"@[0] == 'C' && "CIDR:"@[1] == 'I',
        "inetnum:"@.len() == 8 && "inetnum:"@[0] == 'i',
        "OriginAS:"@.len() == 9 && "OriginAS:"@[0] == 'O',
        "origin:"@.len() == 7 && "origin:"@[0] == 'o',
{
    reveal_strlit("Creation Date:");
    reveal_strlit("Registered:");
    reveal_strlit("created:");
    reveal_strlit("Registry Expiry Date:");
    reveal_strlit("Expiry Date:");
    reveal_strlit("Expires:");
    reveal_strlit("Registrar:");
    reveal_strlit("OrgName:");
    reveal_strlit("Organization:");
    reveal_strlit("org-name:");
    reveal_strlit("CIDR:");
    reveal_strlit("inetnum:");
    reveal_strlit("OriginAS:");
    reveal_strlit("origin:");
}

/// An answer with a date of registration and a date of expiry, in either
/// order, gives the first as `created` and the second as `expires`.
pub proof fn law_dates_are_not_mixed_up(created: Seq<char>, expires: Seq<char>)
    requires
        plain_value(created),
        plain_value(expires),
    ensures
        ({
            let c = "Creation Date: "@ + created + seq!['\n'];
            let x = "Registry Expiry Date: "@ + expires + seq!['\n'];
            &&& detail(c + x).member("created"@) == Some(JsonView::Text(created))
            &&& detail(c + x).member("expires"@) == Some(JsonView::Text(expires))
            &&& detail(c + x).member("registrar"@) == Some(JsonView::Null)
            &&& detail(x + c).member("created"@) == Some(JsonView::Text(created))
            &&& detail(x + c).member("expires"@) == Some(JsonView::Text(expires))
        }),
{
    let none = Seq::<char>::empty();
    let c = "Creation Date: "@ + created + seq!['\n'];
    let x = "Registry Expiry Date: "@ + expires + seq!['\n'];
    law_an_empty_answer_says_nothing();
    law_a_creation_date_is_read(created, x);
    law_an_expiry_date_is_read(expires, none);
    law_an_expiry_date_is_read(expires, c);
    law_a_creation_date_is_read(created, none);
    assert(x + none == x);
    assert(c + none == c);
}

/// The other labels for the same things are read as well.
pub proof fn law_other_labels_are_read(label: Seq<char>, value: Seq<char>, rest: Seq<char>)
    requires
        plain_value(value),
    ensures
        ({
            let text = label + seq![' '] + value + seq!['\n'] + rest;
            &&& label == "Registered:"@ || label == "created:"@ ==> detail(text).member("created"@)
                == Some(JsonView::Text(value))
            &&& label == "Expiry Date:"@ || label == "Expires:"@ || label == "expires:"@ ==> detail(
                text,
            ).member("expires"@) == Some(JsonView::Text(value))
            &&& label == "OrgName:"@ || label == "Organization:"@ || label == "org-name:"@
                ==> detail(text).member("registrar"@) == Some(JsonView::Text(value))
            &&& label == "inetnum:"@ ==> range_in(text) == Some(value)
            &&& label == "origin:"@ ==> origin_in(text) == Some(value)
        }),
{
    let line = labelled(label, value);
    lemma_lowered();
    lemma_label_starts();
    reveal_strlit("Registered:");
    reveal_strlit("created:");
    reveal_strlit("Creation Date:");
    reveal_strlit("Expiry Date:");
    reveal_strlit("Expires:");
    reveal_strlit("expires:");
    reveal_strlit("OrgName:");
    reveal_strlit("Organization:");
    reveal_strlit("org-name:");
    reveal_strlit("inetnum:");
    reveal_strlit("origin:");
    reveal_strlit("OriginAS:");
    assert(lower_char('N') == 'n' && lower_char('A') == 'a' && lower_char('-') == '-'
        && lower_char(':') == ':');
    assert(label.len() > 0 ==> line[0] == label[0]);
    assert(label.len() > 6 ==> line[3] == label[3] && line[5] == label[5] && line[6] == label[6]);
    if label == "Registered:"@ || label == "created:"@ {
        assert(!label.contains('\n'));
        lemma_labelled_line(label, value);
        if label == "Registered:"@ {
            lemma_no_label(line, "Creation Date:"@, 0);
            lemma_value_in(label, value, creation_labels(), 1);
        } else {
            lemma_no_label(line, "Creation Date:"@, 5);
            lemma_no_label(line, "Registered:"@, 0);
            lemma_value_in(label, value, creation_labels(), 2);
        }
        law_the_first_labelled_line_counts(line, rest, creation_labels());
        lemma_detail(line + seq!['\n'] + rest);
    }
    if label == "Expiry Date:"@ || label == "Expires:"@ || label == "expires:"@ {
        assert(!label.contains('\n'));
        lemma_labelled_line(label, value);
        lemma_no_label(line, "Registry Expiry Date:"@, 0);
        if label == "Expiry Date:"@ {
            lemma_value_in(label, value, expiry_labels(), 1);
        } else {
            lemma_no_label(line, "Expiry Date:"@, 5);
            if label == "Expires:"@ {
                lemma_value_in(label, value, expiry_labels(), 2);
            } else {
                lemma_same_label(line);
                lemma_value_behind_space(label, value, "Expires:"@);
                let found = expiry_labels().map_values(|l: Seq<char>| value_behind(line, l));
                law_a_line_without_the_label_says_nothing(line, expiry_labels()[0]);
                law_a_line_without_the_label_says_nothing(line, expiry_labels()[1]);
                assert(found[2] == Some(value));
                law_the_first_option_counts(found, 2);
            }
        }
        law_the_first_labelled_line_counts(line, rest, expiry_labels());
        lemma_detail(line + seq!['\n'] + rest);
    }
    if label == "OrgName:"@ || label == "Organization:"@ || label == "org-name:"@ {
        assert(!label.contains('\n'));
        lemma_labelled_line(label, value);
        lemma_no_label(line, "Registrar:"@, 0);
        if label == "OrgName:"@ {
            lemma_value_in(label, value, registrar_labels(), 1);
        } else if label == "Organization:"@ {
            lemma_no_label(line, "OrgName:"@, 3);
            lemma_value_in(label, value, registrar_labels(), 2);
        } else {
            lemma_no_label(line, "OrgName:"@, 3);
            lemma_no_label(line, "Organization:"@, 3);
            lemma_value_in(label, value, registrar_labels(), 3);
        }
        law_the_first_labelled_line_counts(line, rest, registrar_labels());
        lemma_detail(line + seq!['\n'] + rest);
    }
    if label == "inetnum:"@ {
        assert(!label.contains('\n'));
        lemma_labelled_line(label, value);
        lemma_no_label(line, "CIDR:"@, 0);
        lemma_value_in(label, value, range_labels(), 1);
        law_the_first_labelled_line_counts(line, rest, range_labels());
    }
    if label == "origin:"@ {
        assert(!label.contains('\n'));
        lemma_labelled_line(label, value);
        lemma_no_label(line, "OriginAS:"@, 6);
        lemma_value_in(label, value, origin_labels(), 1);
        law_the_first_labelled_line_counts(line, rest, origin_labels());
    }
}

/// An answer leads to a network for its range, an autonomous system for its
/// origin, and last to the entity itself, under its own kind and value, with
/// the detail and with links to what was found.
pub proof fn law_an_answer_leads_to_range_origin_and_detail(
    entity: EntityView,
    text: Seq<char>,
    found: Seq<u128>,
)
    ensures
        ({
            let all = answer_drafts(entity, text, found);
            let last = all.last();
            &&& all.len() == 1 + (if range_in(text) is Some {
                1int
            } else {
                0
            }) + (if origin_in(text) is Some {
                1int
            } else {
                0
            })
            &&& last.entity_type == entity.entity_type
            &&& last.value == entity.value
            &&& last.source == "whois"@
            &&& last.metadata == detail(text)
            &&& range_in(text) is Some ==> all[0].entity_type == EntityType::Cidr && all[0].value
                == range_in(text)->0 && all[0].source == "whois"@ && last.relations[0] == (
            RelationView { target: found[0], kind: RelationKindView::BelongsToCidr })
            &&& origin_in(text) is Some ==> {
                let k = all.len() - 2;
                all[k].entity_type == EntityType::Asn && all[k].value == origin_in(text)->0
                    && all[k].source == "whois"@ && last.relations[k] == (RelationView {
                    target: found[k],
                    kind: RelationKindView::BelongsToAsn,
                })
            }
            &&& last.relations.len() == all.len() - 1
            &&& forall|k: int|
                0 <= k < all.len() ==> (#[trigger] all[k]).confidence == (Confidence {
                    bits: 0x3F80_0000,
                })
        }),
{
}

/// The label of a referral in whatever case, white space, an optional scheme,
/// the server and an optional slash: the server is what is referred to.
pub proof fn law_a_referral_is_read(
    written: Seq<char>,
    gap: Seq<char>,
    scheme: bool,
    server: Seq<char>,
    slash: bool,
    rest: Seq<char>,
)
    requires
        lower(written) == "refer:"@ || lower(written) == "referralserver:"@ || lower(written)
            == "whois:"@,
        !written.contains('\n'),
        !gap.contains('\n'),
        forall|i: int| 0 <= i < gap.len() ==> is_white(#[trigger] gap[i]),
        plain_value(server),
        server[0] != '/',
        server.last() != '/',
        !"whois://"@.is_prefix_of(server),
        !"whois://"@.is_prefix_of(server.push('/')),
    ensures
        referral(
            written + gap + (if scheme {
                "whois://"@
            } else {
                Seq::empty()
            }) + server + (if slash {
                seq!['/']
            } else {
                Seq::empty()
            }) + seq!['\n'] + rest,
        ) == Some(server),
{
    let front = if scheme {
        "whois://"@
    } else {
        Seq::empty()
    };
    let back = if slash {
        seq!['/']
    } else {
        Seq::empty()
    };
    let label = lower(written);
    let core = front + server + back;
    let line = written + gap + core;
    let none = Seq::<char>::empty();
    reveal_strlit("whois://");
    assert(line == written + gap + front + server + back);
    // The line has the label, and behind it the server.
    assert(label.is_prefix_of(lower(line))) by {
        assert(lower(line).take(label.len() as int) =~= label);
    }
    assert(line.skip(label.len() as int) =~= gap + core);
    assert(!is_white('/'));
    assert(core.len() > 0);
    assert(!is_white(core[0])) by {
        if scheme {
            assert(core[0] == 'w');
        } else {
            assert(core[0] == server[0]);
        }
    }
    assert(!is_white(core.last())) by {
        if slash {
            assert(core.last() == '/');
        } else {
            assert(core.last() == server.last());
        }
    }
    law_text_in_white_space_is_left(gap, core, none);
    assert(gap + core + none == gap + core);
    let bare = server + back;
    assert(!"whois://"@.is_prefix_of(bare)) by {
        if slash {
            assert(bare == server.push('/'));
        } else {
            assert(bare == server);
        }
    }
    law_prefixes_are_skipped(bare, "whois://"@);
    if scheme {
        assert(core == "whois://"@ + bare);
        law_prefixes_are_skipped(core, "whois://"@);
        assert(core.skip(8) =~= bare);
    } else {
        assert(core =~= bare);
    }
    assert(skip_prefixes(core, "whois://"@) == bare);
    let stroke = |c: char| c == '/';
    law_dropping_ends_at_the_last_other(server, stroke);
    assert(!stroke(server.last()));
    assert(drop_while(server, stroke) == server);
    if slash {
        assert(bare.drop_last() =~= server);
        assert(stroke(bare.last()));
        assert(drop_while(bare, stroke) == drop_while(server, stroke));
    } else {
        assert(bare =~= server);
    }
    law_trimmed_text_stays(server);
    assert(referral_behind(line, label) == Some(server));
    // Of the three labels the line has only this one.
    lemma_one_referral_label(line, label, server);
    assert(!line.contains('\n')) by {
        if line.contains('\n') {
            let k = line.index_of('\n');
            if k < written.len() {
                assert(written[k] == '\n');
            } else if k < written.len() + gap.len() {
                assert(gap[k - written.len()] == '\n');
            } else {
                let m = k - written.len() - gap.len();
                assert(core[m] == '\n');
                if front.len() <= m < front.len() + server.len() {
                    assert(server[m - front.len()] == '\n');
                }
            }
        }
    }
    assert(line.last() == core.last());
    law_first_line(line, rest);
    let pick = |l: Seq<char>| referral_in(l);
    let all = (seq![line] + lines(rest)).map_values(pick);
    assert(all[0] == Some(server));
    law_the_first_option_counts(all, 0);
    assert(line + seq!['\n'] + rest == written + gap + front + server + back + seq!['\n'] + rest);
}

proof fn lemma_one_referral_label(line: Seq<char>, label: Seq<char>, server: Seq<char>)
    requires
        label == "refer:"@ || label == "referralserver:"@ || label == "whois:"@,
        label.is_prefix_of(lower(line)),
        referral_behind(line, label) == Some(server),
    ensures
        referral_in(line) == Some(server),
{
    reveal_strlit("refer:");
    reveal_strlit("referralserver:");
    reveal_strlit("whois:");
    let labels = seq!["refer:"@, "referralserver:"@, "whois:"@];
    let found = labels.map_values(|l: Seq<char>| referral_behind(line, l));
    let low = lower(line);
    assert(low.take(label.len() as int) == label);
    assert(low[0] == label[0] && low[5] == label[5]);
    if label == "refer:"@ {
        law_the_first_option_counts(found, 0);
    } else if label == "referralserver:"@ {
        assert(!"refer:"@.is_prefix_of(low)) by {
            if "refer:"@.is_prefix_of(low) {
                assert("refer:"@[5] == low[5]);
            }
        }
        law_the_first_option_counts(found, 1);
    } else {
        assert(!"refer:"@.is_prefix_of(low)) by {
            if "refer:"@.is_prefix_of(low) {
                assert("refer:"@[0] == low[0]);
            }
        }
        assert(!"referralserver:"@.is_prefix_of(low)) by {
            if "referralserver:"@.is_prefix_of(low) {
                assert("referralserver:"@[0] == low[0]);
            }
        }
        law_the_first_option_counts(found, 2);
    }
}

/// A line with none of the labels refers nowhere: the rest of the answer
/// decides.
pub proof fn law_other_lines_refer_nowhere(line: Seq<char>, rest: Seq<char>)
    requires
        !line.contains('\n'),
        line.len() > 0 ==> line.last() != '\r',
        !"refer:"@.is_prefix_of(lower(line)),
        !"referralserver:"@.is_prefix_of(lower(line)),
        !"whois:"@.is_prefix_of(lower(line)),
    ensures
        referral(line + seq!['\n'] + rest) == referral(rest),
        referral(Seq::empty()) is None,
{
    law_first_line(line, rest);
    let pick = |l: Seq<char>| referral_in(l);
    let others = lines(rest).map_values(pick);
    let all = (seq![line] + lines(rest)).map_values(pick);
    assert(all =~= seq![referral_in(line)] + others);
    let labels = seq!["refer:"@, "referralserver:"@, "whois:"@];
    let found = labels.map_values(|l: Seq<char>| referral_behind(line, l));
    assert(labels[0] == "refer:"@ && labels[1] == "referralserver:"@ && labels[2] == "whois:"@);
    assert forall|i: int| 0 <= i < found.len() implies (#[trigger] found[i]) is None by {
        assert(labels[i] == "refer:"@ || labels[i] == "referralserver:"@ || labels[i] == "whois:"@);
    }
    law_no_option_counts(found);
    lemma_skip_first(all, others);
    assert(Seq::<Seq<char>>::empty().map_values(pick) =~= Seq::<Option<Seq<char>>>::empty());
}

/// Addresses are looked up at the registry of addresses first, everything else
/// at the root; at most three referrals are followed.
pub proof fn law_where_a_lookup_begins(entity_type: EntityType)
    ensures
        entity_type == EntityType::IpAddress ==> first_server(entity_type) == "whois.arin.net"@,
        entity_type != EntityType::IpAddress ==> first_server(entity_type) == "whois.iana.org"@,
        MAX_REFERRALS == 3,
{
}

/// The servers that are asked in turn about an entity of some kind, if each
/// answer so far referred to another server.
pub open spec fn servers_in_turn(entity_type: EntityType, answers: Seq<Seq<char>>) -> Option<
    Seq<Seq<char>>,
>
    decreases answers.len(),
{
    if answers.len() == 0 {
        Some(seq![first_server(entity_type)])
    } else {
        match servers_in_turn(entity_type, answers.drop_last()) {
            Some(servers) => match server_after(
                servers.last(),
                servers.len() - 1,
                answers.last(),
            ) {
                Some(next) => Some(servers.push(next)),
                None => None,
            },
            None => None,
        }
    }
}

/// A lookup begins at the first server, goes from each to the one that its
/// answer refers to, which is another one, and asks at most four.
pub proof fn law_a_lookup_follows_referrals(
    entity_type: EntityType,
    answers: Seq<Seq<char>>,
    k: int,
)
    requires
        servers_in_turn(entity_type, answers) is Some,
    ensures
        ({
            let servers = servers_in_turn(entity_type, answers)->0;
            &&& servers.len() == answers.len() + 1
            &&& servers.len() <= 4
            &&& servers[0] == first_server(entity_type)
            &&& 0 <= k < answers.len() ==> referral(answers[k]) == Some(servers[k + 1]) && servers[k
                + 1] != servers[k]
        }),
    decreases answers.len(),
{
    if answers.len() > 0 {
        law_a_lookup_follows_referrals(entity_type, answers.drop_last(), k);
        if 0 <= k < answers.len() - 1 {
            assert(answers.drop_last()[k] == answers[k]);
        }
    }
}

/// A lookup goes on wherever an answer refers to another server, as long as
/// fewer than four were asked, and nowhere else.
pub proof fn law_a_lookup_goes_on_while_it_may(
    entity_type: EntityType,
    answers: Seq<Seq<char>>,
    answer: Seq<char>,
)
    requires
        servers_in_turn(entity_type, answers) is Some,
    ensures
        servers_in_turn(entity_type, answers.push(answer)) is Some <==> answers.len() < 3
            && referral(answer) is Some && referral(answer)->0 != servers_in_turn(
            entity_type,
            answers,
        )->0.last(),
{
    law_a_lookup_follows_referrals(entity_type, answers, 0);
    assert(answers.push(answer).drop_last() == answers);
}

} // verus!
