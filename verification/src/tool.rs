//! What plugins share: picking their targets, and the output of external
//! tools.
use vstd::prelude::*;

use crate::entity::{entity_views, Entity, EntityType, EntityView};
use crate::error::{plugin_failure, Error, ErrorView};
use crate::json::{item_models, lemma_item_models, Json, JsonView};
use crate::octets::{lossy_text, text_of};
use crate::text::{
    char_lists, chars_of, copy_text, lines, somes, split_lines, string_of, texts, trim, trim_chars,
};

verus! {

/// The positions of the entities whose kind is among the given ones.
pub open spec fn chosen(input: Seq<EntityView>, kinds: Seq<EntityType>) -> Seq<int>
    decreases input.len(),
{
    if input.len() == 0 {
        Seq::empty()
    } else if kinds.contains(input.last().entity_type) {
        chosen(input.drop_last(), kinds).push(input.len() - 1)
    } else {
        chosen(input.drop_last(), kinds)
    }
}

/// The entities that are picked are exactly those of the given kinds.
pub proof fn law_only_accepted_kinds_are_chosen(
    input: Seq<EntityView>,
    kinds: Seq<EntityType>,
    i: int,
)
    ensures
        chosen(input, kinds).contains(i) <==> 0 <= i < input.len() && kinds.contains(
            input[i].entity_type,
        ),
    decreases input.len(),
{
    if input.len() > 0 {
        let front = chosen(input.drop_last(), kinds);
        let all = chosen(input, kinds);
        law_only_accepted_kinds_are_chosen(input.drop_last(), kinds, i);
        if i < input.len() - 1 {
            assert(0 <= i ==> input.drop_last()[i] == input[i]);
            if front.contains(i) {
                assert(all[front.index_of(i)] == i);
            }
            if all.contains(i) {
                let k = all.index_of(i);
                assert(front[k] == i);
            }
        } else if i == input.len() - 1 && kinds.contains(input.last().entity_type) {
            assert(all[front.len() as int] == i);
        } else if all.contains(i) {
            let k = all.index_of(i);
            if k < front.len() {
                assert(front[k] == i);
            }
        }
    }
}

/// A list of positions.
pub open spec fn positions(v: Seq<usize>) -> Seq<int> {
    v.map_values(|i: usize| i as int)
}

/// Whether a kind is among the given ones.
pub fn is_among(kind: EntityType, kinds: &Vec<EntityType>) -> (r: bool)
    ensures
        r == kinds@.contains(kind),
{
    let mut i: usize = 0;
    while i < kinds.len()
        invariant
            i <= kinds.len(),
            forall|k: int| 0 <= k < i ==> kinds@[k] != kind,
        decreases kinds.len() - i,
    {
        if kinds[i] == kind {
            return true;
        }
        i += 1;
    }
    false
}

/// The positions of the entities whose kind is among the given ones.
pub fn choose_targets(input: &Vec<Entity>, kinds: &Vec<EntityType>) -> (r: Vec<usize>)
    ensures
        positions(r@) == chosen(entity_views(input@), kinds@),
        forall|k: int|
            0 <= k < r@.len() ==> #[trigger] r@[k] < input@.len() && kinds@.contains(
                input@[r@[k] as int].entity_type,
            ),
{
    let ghost views = entity_views(input@);
    let mut r: Vec<usize> = Vec::new();
    let mut i: usize = 0;
    assert(positions(r@) == chosen(views.take(0), kinds@));
    while i < input.len()
        invariant
            i <= input.len(),
            views == entity_views(input@),
            positions(r@) == chosen(views.take(i as int), kinds@),
            forall|k: int|
                0 <= k < r@.len() ==> #[trigger] r@[k] < input@.len() && kinds@.contains(
                    input@[r@[k] as int].entity_type,
                ),
        decreases input.len() - i,
    {
        let ghost before = r@;
        proof {
            assert(views.take(i + 1).drop_last() == views.take(i as int));
            assert(views.take(i + 1).last() == input@[i as int]@);
        }
        if is_among(input[i].entity_type, kinds) {
            r.push(i);
            assert(positions(r@) == positions(before).push(i as int));
        }
        i += 1;
    }
    assert(views.take(i as int) == views);
    r
}

/// The strings of a JSON array.
pub open spec fn strings_among(items: Seq<JsonView>) -> Seq<Seq<char>> {
    somes(
        items.map_values(
            |v: JsonView|
                match v {
                    JsonView::Text(s) => Some(s),
                    _ => None,
                },
        ),
    )
}

/// The strings of a JSON array.
pub fn strings_of(items: &Vec<Json>) -> (r: Vec<String>)
    ensures
        texts(r@) == strings_among(item_models(items@)),
{
    let ghost views = item_models(items@);
    let ghost pick = |v: JsonView|
        match v {
            JsonView::Text(s) => Some(s),
            _ => None,
        };
    let ghost picked = views.map_values(pick);
    proof {
        lemma_item_models(items@);
    }
    let mut r: Vec<String> = Vec::new();
    let mut i: usize = 0;
    assert(texts(r@) == somes(picked.take(0)));
    while i < items.len()
        invariant
            i <= items.len(),
            views.len() == items.len(),
            forall|k: int| 0 <= k < items.len() ==> views[k] == (#[trigger] items@[k]).model(),
            pick == (|v: JsonView|
                match v {
                    JsonView::Text(s) => Some(s),
                    _ => None,
                }),
            picked == views.map_values(pick),
            texts(r@) == somes(picked.take(i as int)),
        decreases items.len() - i,
    {
        let ghost before = r@;
        proof {
            assert(picked.take(i + 1).drop_last() == picked.take(i as int));
            assert(picked.take(i + 1).last() == pick(items@[i as int].model()));
        }
        match items[i].as_str() {
            Some(s) => {
                r.push(copy_text(s));
                assert(texts(r@) == texts(before).push(s@));
            },
            None => {},
        }
        i += 1;
    }
    assert(picked.take(i as int) == picked);
    r
}

/// What an external tool left behind.
pub struct ToolOutput {
    pub success: bool,
    pub stdout: Vec<u8>,
    pub stderr: Vec<u8>,
}

/// One call of an external tool: the position of the entity it is about, and
/// its arguments.
pub struct Invocation {
    pub target: usize,
    pub args: Vec<String>,
}

/// The mathematical model of a call.
pub struct InvocationView {
    pub target: int,
    pub args: Seq<Seq<char>>,
}

impl View for Invocation {
    type V = InvocationView;

    open spec fn view(&self) -> InvocationView {
        InvocationView { target: self.target as int, args: texts(self.args@) }
    }
}

/// The models of a list of calls.
pub open spec fn invocation_views(v: Seq<Invocation>) -> Seq<InvocationView> {
    v.map_values(|i: Invocation| i@)
}

/// The lines of a text, trimmed, without the empty ones.
pub open spec fn filled_lines(text: Seq<char>) -> Seq<Seq<char>> {
    somes(
        lines(text).map_values(
            |l: Seq<char>|
                if trim(l).len() > 0 {
                    Some(trim(l))
                } else {
                    None
                },
        ),
    )
}

/// The lines of a text, trimmed, without the empty ones.
pub fn lines_of(text: &str) -> (r: Vec<String>)
    ensures
        texts(r@) == filled_lines(text@),
{
    let all = split_lines(&chars_of(text));
    let ghost views = char_lists(all@);
    let ghost keep = |l: Seq<char>|
        if trim(l).len() > 0 {
            Some(trim(l))
        } else {
            None
        };
    let ghost kept = views.map_values(keep);
    let mut r: Vec<String> = Vec::new();
    let mut i: usize = 0;
    assert(texts(r@) == somes(kept.take(0)));
    while i < all.len()
        invariant
            i <= all.len(),
            views == char_lists(all@),
            keep == (|l: Seq<char>|
                if trim(l).len() > 0 {
                    Some(trim(l))
                } else {
                    None
                }),
            kept == views.map_values(keep),
            texts(r@) == somes(kept.take(i as int)),
        decreases all.len() - i,
    {
        let ghost before = r@;
        let line = trim_chars(&all[i]);
        proof {
            assert(kept.take(i + 1).drop_last() == kept.take(i as int));
            assert(kept.take(i + 1).last() == keep(all@[i as int]@));
        }
        if line.len() > 0 {
            let s = string_of(&line);
            r.push(s);
            assert(texts(r@) == texts(before).push(s@));
        }
        i += 1;
    }
    assert(kept.take(i as int) == kept);
    r
}

/// The lines that a tool wrote, or its complaint if it failed.
pub fn output_lines(plugin: &str, output: &ToolOutput) -> (r: Result<Vec<String>, Error>)
    ensures
        match r {
            Ok(found) => output.success && texts(found@) == filled_lines(text_of(output.stdout@)),
            Err(e) => !output.success && e@ == (ErrorView::PluginExecution {
                plugin: plugin@,
                message: trim(text_of(output.stderr@)),
            }),
        },
{
    if !output.success {
        let complaint = lossy_text(output.stderr.as_slice());
        return Err(plugin_failure(plugin, string_of(&trim_chars(&chars_of(complaint.as_str())))));
    }
    let stdout = lossy_text(output.stdout.as_slice());
    Ok(lines_of(stdout.as_str()))
}

/// The error for a tool that is not installed.
pub fn missing_binary(plugin: &str, binary: &str) -> (r: Error)
    ensures
        r@ == (ErrorView::MissingBinary { plugin: plugin@, binary: binary@ }),
{
    Error::MissingBinary { plugin: copy_text(plugin), binary: copy_text(binary) }
}

} // verus!
