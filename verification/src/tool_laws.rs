//! What holds of what plugins share, whatever they are given.
use vstd::prelude::*;

use crate::entity::{EntityType, EntityView};
use crate::json::{text_array, text_or_null, JsonView};
use crate::text::{lines, somes, trim};
use crate::text_laws::{
    law_first_line, law_present_items_stay_in_order, law_trimmed_text_stays,
};
use crate::tool::{chosen, filled_lines, strings_among};

verus! {

/// One more option adds its item, if it is there, at the end.
pub proof fn lemma_somes_grow<T>(s: Seq<Option<T>>, x: Option<T>)
    ensures
        somes(s.push(x)) == match x {
            Some(y) => somes(s).push(y),
            None => somes(s),
        },
{
    assert(s.push(x).drop_last() == s);
}

/// There is no item if and only if no option is there.
pub proof fn lemma_no_somes<T>(s: Seq<Option<T>>)
    ensures
        somes(s).len() == 0 <==> forall|i: int| 0 <= i < s.len() ==> (#[trigger] s[i]) is None,
    decreases s.len(),
{
    if s.len() > 0 {
        let front = s.drop_last();
        lemma_no_somes(front);
        assert forall|i: int| 0 <= i < front.len() implies front[i] == #[trigger] s[i] by {}
        assert(s[s.len() - 1] == s.last());
        if somes(s).len() == 0 {
            assert forall|i: int| 0 <= i < s.len() implies (#[trigger] s[i]) is None by {
                if i < front.len() {
                    assert(front[i] == s[i]);
                }
            }
        } else if s.last() is None {
            let i = choose|i: int| 0 <= i < front.len() && (#[trigger] front[i]) is Some;
            assert(s[i] is Some);
        }
    }
}

/// Of one more value of a list the text counts, if it is one; it comes last.
pub proof fn law_texts_are_picked_in_order(items: Seq<JsonView>, v: JsonView)
    ensures
        strings_among(Seq::empty()) == Seq::<Seq<char>>::empty(),
        strings_among(items.push(v)) == match v {
            JsonView::Text(s) => strings_among(items).push(s),
            _ => strings_among(items),
        },
{
    let pick = |v: JsonView|
        match v {
            JsonView::Text(s) => Some(s),
            _ => None,
        };
    assert(Seq::<JsonView>::empty().map_values(pick) =~= Seq::<Option<Seq<char>>>::empty());
    assert(items.push(v).map_values(pick) =~= items.map_values(pick).push(pick(v)));
    lemma_somes_grow(items.map_values(pick), pick(v));
}

/// The entities that are picked stand in the order in which they were given,
/// and none is picked twice.
pub proof fn law_chosen_entities_stand_in_order(
    input: Seq<EntityView>,
    kinds: Seq<EntityType>,
    a: int,
    b: int,
)
    requires
        0 <= a < b < chosen(input, kinds).len(),
    ensures
        0 <= chosen(input, kinds)[a] < chosen(input, kinds)[b] < input.len(),
    decreases input.len(),
{
    lemma_chosen_bounds(input, kinds, b);
    let front = chosen(input.drop_last(), kinds);
    if b < front.len() {
        law_chosen_entities_stand_in_order(input.drop_last(), kinds, a, b);
    } else {
        lemma_chosen_bounds(input.drop_last(), kinds, a);
    }
}

proof fn lemma_chosen_bounds(input: Seq<EntityView>, kinds: Seq<EntityType>, k: int)
    requires
        0 <= k < chosen(input, kinds).len(),
    ensures
        0 <= chosen(input, kinds)[k] < input.len(),
        kinds.contains(input[chosen(input, kinds)[k]].entity_type),
    decreases input.len(),
{
    let front = chosen(input.drop_last(), kinds);
    if k < front.len() {
        lemma_chosen_bounds(input.drop_last(), kinds, k);
        assert(input.drop_last()[front[k]] == input[front[k]]);
    }
}

/// Every entity that is picked is one of those that were given, of one of the
/// kinds asked for.
pub proof fn law_chosen_entities_are_of_the_kinds(
    input: Seq<EntityView>,
    kinds: Seq<EntityType>,
    k: int,
)
    requires
        0 <= k < chosen(input, kinds).len(),
    ensures
        0 <= chosen(input, kinds)[k] < input.len(),
        kinds.contains(input[chosen(input, kinds)[k]].entity_type),
{
    lemma_chosen_bounds(input, kinds, k);
}

/// The filled lines of a text are those of its first line, trimmed, unless that
/// leaves nothing, and then those of the rest.
pub proof fn law_filled_lines_are_read_one_by_one(line: Seq<char>, rest: Seq<char>)
    requires
        !line.contains('\n'),
        line.len() > 0 ==> line.last() != '\r',
    ensures
        filled_lines(Seq::empty()) == Seq::<Seq<char>>::empty(),
        filled_lines(line + seq!['\n'] + rest) == (if trim(line).len() > 0 {
            seq![trim(line)]
        } else {
            Seq::empty()
        }) + filled_lines(rest),
        filled_lines(line) == if trim(line).len() > 0 {
            seq![trim(line)]
        } else {
            Seq::<Seq<char>>::empty()
        },
{
    law_first_line(line, rest);
    let keep = |l: Seq<char>|
        if trim(l).len() > 0 {
            Some(trim(l))
        } else {
            None
        };
    let none = Seq::<Seq<char>>::empty();
    assert(none.map_values(keep) =~= Seq::<Option<Seq<char>>>::empty());
    let others = lines(rest).map_values(keep);
    assert((seq![line] + lines(rest)).map_values(keep) =~= seq![keep(line)] + others);
    law_present_items_stay_in_order(seq![keep(line)], others, trim(line));
    if line.len() > 0 {
        assert(seq![line].map_values(keep) =~= seq![keep(line)]);
    } else {
        assert(line == Seq::<char>::empty());
        assert(trim(line).len() == 0) by {
            law_trimmed_text_stays(line);
        }
    }
}

/// A text is shown as that text, and no text as nothing; a list of texts is
/// shown text by text.
pub proof fn law_texts_are_shown_as_they_are(t: Seq<char>, ts: Seq<Seq<char>>, i: int)
    ensures
        text_or_null(Some(t)) == JsonView::Text(t),
        text_or_null(None) == JsonView::Null,
        text_array(ts) is Array,
        text_array(ts)->Array_0.len() == ts.len(),
        0 <= i < ts.len() ==> text_array(ts)->Array_0[i] == JsonView::Text(ts[i]),
{
}

} // verus!
