//! JSON values: the metadata of entities and the settings of plugins.
use vstd::prelude::*;

use crate::text::{copy_text, same_text};

verus! {

/// A JSON value. A number is kept as an integer where it is one; any other
/// number is kept as the bits of its IEEE 754 double. Of members of an object
/// with the same name the last one counts. `==` compares members in the order
/// in which they are kept.
#[derive(Debug, PartialEq)]
pub enum Json {
    Null,
    Bool(bool),
    PosInt(u64),
    NegInt(i64),
    Float(u64),
    Text(String),
    Array(Vec<Json>),
    Object(Vec<(String, Json)>),
}

/// The mathematical model of a JSON value.
pub enum JsonView {
    Null,
    Bool(bool),
    PosInt(u64),
    NegInt(i64),
    Float(u64),
    Text(Seq<char>),
    Array(Seq<JsonView>),
    Object(Map<Seq<char>, JsonView>),
}

impl Json {
    pub open spec fn model(self) -> JsonView
        decreases self,
    {
        match self {
            Json::Null => JsonView::Null,
            Json::Bool(b) => JsonView::Bool(b),
            Json::PosInt(n) => JsonView::PosInt(n),
            Json::NegInt(n) => JsonView::NegInt(n),
            Json::Float(bits) => JsonView::Float(bits),
            Json::Text(s) => JsonView::Text(s@),
            Json::Array(items) => JsonView::Array(item_models(items@)),
            Json::Object(members) => JsonView::Object(member_models(members@)),
        }
    }
}

impl View for Json {
    type V = JsonView;

    open spec fn view(&self) -> JsonView {
        self.model()
    }
}

/// The models of the items of an array.
pub open spec fn item_models(items: Seq<Json>) -> Seq<JsonView>
    decreases items,
{
    if items.len() == 0 {
        Seq::empty()
    } else {
        item_models(items.drop_last()).push(items.last().model())
    }
}

/// The models of the members of an object, by name.
pub open spec fn member_models(members: Seq<(String, Json)>) -> Map<Seq<char>, JsonView>
    decreases members,
{
    if members.len() == 0 {
        Map::empty()
    } else {
        member_models(members.drop_last()).insert(members.last().0@, members.last().1.model())
    }
}

impl JsonView {
    /// The member of an object with the given name.
    pub open spec fn member(self, key: Seq<char>) -> Option<JsonView> {
        match self {
            JsonView::Object(members) if members.contains_key(key) => Some(members[key]),
            _ => None,
        }
    }

    /// This value enriched by `new`: an object gains the members of another
    /// that it does not have yet and keeps all of its own, `null` changes
    /// nothing, and where either value is no object, `new` takes its place.
    pub open spec fn merged(self, new: JsonView) -> JsonView {
        match (self, new) {
            (_, JsonView::Null) => self,
            (JsonView::Object(known), JsonView::Object(more)) => JsonView::Object(
                more.union_prefer_right(known),
            ),
            _ => new,
        }
    }
}

/// A JSON string, or `null` where there is no text.
pub open spec fn text_or_null(s: Option<Seq<char>>) -> JsonView {
    match s {
        Some(t) => JsonView::Text(t),
        None => JsonView::Null,
    }
}

/// A JSON array of strings.
pub open spec fn text_array(s: Seq<Seq<char>>) -> JsonView {
    JsonView::Array(s.map_values(|t: Seq<char>| JsonView::Text(t)))
}

/// The text that an optional string holds.
pub open spec fn opt_text(s: Option<String>) -> Option<Seq<char>> {
    match s {
        Some(t) => Some(t@),
        None => None,
    }
}

pub proof fn lemma_item_models(items: Seq<Json>)
    ensures
        item_models(items).len() == items.len(),
        forall|i: int| 0 <= i < items.len() ==> item_models(items)[i] == (#[trigger] items[i]).model(),
    decreases items.len(),
{
    if items.len() > 0 {
        lemma_item_models(items.drop_last());
        assert forall|i: int| 0 <= i < items.len() implies item_models(items)[i] == (
        #[trigger] items[i]).model() by {
            if i < items.len() - 1 {
                assert(items.drop_last()[i] == items[i]);
            }
        }
    }
}

proof fn lemma_member_update(members: Seq<(String, Json)>, i: int, entry: (String, Json))
    requires
        0 <= i < members.len(),
        members[i].0@ == entry.0@,
        forall|j: int| i < j < members.len() ==> (#[trigger] members[j]).0@ != entry.0@,
    ensures
        member_models(members.update(i, entry)) == member_models(members).insert(
            entry.0@,
            entry.1.model(),
        ),
    decreases members.len(),
{
    let changed = members.update(i, entry);
    if i == members.len() - 1 {
        assert(changed.drop_last() == members.drop_last());
        assert(member_models(changed) == member_models(members).insert(entry.0@, entry.1.model()));
    } else {
        assert(changed.drop_last() == members.drop_last().update(i, entry));
        assert(members[members.len() - 1].0@ != entry.0@);
        lemma_member_update(members.drop_last(), i, entry);
        assert(member_models(changed) == member_models(members).insert(entry.0@, entry.1.model()));
    }
}

proof fn lemma_member_found(members: Seq<(String, Json)>, i: int, key: Seq<char>)
    requires
        0 <= i < members.len(),
        members[i].0@ == key,
        forall|j: int| i < j < members.len() ==> (#[trigger] members[j]).0@ != key,
    ensures
        member_models(members).contains_key(key),
        member_models(members)[key] == members[i].1.model(),
    decreases members.len(),
{
    if i < members.len() - 1 {
        assert(members[members.len() - 1].0@ != key);
        lemma_member_found(members.drop_last(), i, key);
    }
}

proof fn lemma_member_missing(members: Seq<(String, Json)>, key: Seq<char>)
    requires
        forall|j: int| 0 <= j < members.len() ==> (#[trigger] members[j]).0@ != key,
    ensures
        !member_models(members).contains_key(key),
    decreases members.len(),
{
    if members.len() > 0 {
        assert(members[members.len() - 1].0@ != key);
        lemma_member_missing(members.drop_last(), key);
    }
}

/// The position of the member that counts for a name.
fn position(members: &Vec<(String, Json)>, key: &str) -> (r: Option<usize>)
    ensures
        match r {
            Some(i) => i < members@.len() && members@[i as int].0@ == key@ && forall|j: int|
                i < j < members@.len() ==> (#[trigger] members@[j]).0@ != key@,
            None => forall|j: int| 0 <= j < members@.len() ==> (#[trigger] members@[j]).0@ != key@,
        },
{
    let mut i: usize = members.len();
    while i > 0
        invariant
            i <= members@.len(),
            forall|j: int| i <= j < members@.len() ==> (#[trigger] members@[j]).0@ != key@,
        decreases i,
    {
        if same_text(members[i - 1].0.as_str(), key) {
            return Some(i - 1);
        }
        i -= 1;
    }
    None
}

/// Sets the member with the given name.
pub fn put(members: &mut Vec<(String, Json)>, key: String, value: Json)
    ensures
        member_models(final(members)@) == member_models(old(members)@).insert(key@, value@),
{
    match position(members, key.as_str()) {
        Some(i) => {
            let ghost before = members@;
            let ghost entry = (key, value);
            members.set(i, (key, value));
            proof {
                lemma_member_update(before, i as int, entry);
            }
        },
        None => {
            let ghost before = members@;
            members.push((key, value));
            assert(members@.drop_last() == before);
        },
    }
}

/// Adds a member under a name that is written out.
pub fn put_named(members: &mut Vec<(String, Json)>, key: &str, value: Json)
    ensures
        member_models(final(members)@) == member_models(old(members)@).insert(key@, value@),
{
    put(members, copy_text(key), value);
}

/// A JSON string, or `null` where there is no text.
pub fn json_text_or_null(s: &Option<String>) -> (r: Json)
    ensures
        r@ == text_or_null(opt_text(*s)),
{
    match s {
        Some(t) => Json::Text(t.clone()),
        None => Json::Null,
    }
}

/// A JSON array of strings.
pub fn json_text_array(v: &Vec<String>) -> (r: Json)
    ensures
        r@ == text_array(crate::text::texts(v@)),
{
    let mut items: Vec<Json> = Vec::new();
    let mut i: usize = 0;
    while i < v.len()
        invariant
            i <= v.len(),
            items@.len() == i,
            forall|k: int| 0 <= k < i ==> (#[trigger] items@[k]).model() == JsonView::Text(v@[k]@),
        decreases v.len() - i,
    {
        items.push(Json::Text(v[i].clone()));
        i += 1;
    }
    proof {
        lemma_item_models(items@);
        let texts = crate::text::texts(v@);
        assert forall|k: int| 0 <= k < v.len() implies item_models(items@)[k] == JsonView::Text(
            #[trigger] texts[k],
        ) by {
            assert(items@[k].model() == JsonView::Text(v@[k]@));
        }
        assert(item_models(items@) =~= texts.map_values(|t: Seq<char>| JsonView::Text(t)));
    }
    Json::Array(items)
}

impl Json {
    /// A copy of the value.
    pub fn copy(&self) -> (r: Json)
        ensures
            r@ == self@,
        decreases self,
    {
        match self {
            Json::Null => Json::Null,
            Json::Bool(b) => Json::Bool(*b),
            Json::PosInt(n) => Json::PosInt(*n),
            Json::NegInt(n) => Json::NegInt(*n),
            Json::Float(bits) => Json::Float(*bits),
            Json::Text(s) => Json::Text(s.clone()),
            Json::Array(items) => {
                let mut copies: Vec<Json> = Vec::new();
                let mut i: usize = 0;
                while i < items.len()
                    invariant
                        i <= items.len(),
                        *self == Json::Array(*items),
                        item_models(copies@) == item_models(items@.take(i as int)),
                    decreases items.len() - i,
                {
                    assert(decreases_to!(self => self->Array_0));
                    assert(decreases_to!(self->Array_0 => items@));
                    assert(decreases_to!(items@ => items@[i as int]));
                    let c = items[i].copy();
                    let ghost before = copies@;
                    copies.push(c);
                    assert(copies@.drop_last() == before);
                    assert(items@.take(i + 1).drop_last() == items@.take(i as int));
                    i += 1;
                }
                assert(items@.take(i as int) == items@);
                Json::Array(copies)
            },
            Json::Object(members) => {
                let mut copies: Vec<(String, Json)> = Vec::new();
                let mut i: usize = 0;
                while i < members.len()
                    invariant
                        i <= members.len(),
                        *self == Json::Object(*members),
                        member_models(copies@) == member_models(members@.take(i as int)),
                    decreases members.len() - i,
                {
                    let entry = &members[i];
                    assert(decreases_to!(self => self->Object_0));
                    assert(decreases_to!(self->Object_0 => members@));
                    assert(decreases_to!(members@ => members@[i as int]));
                    assert(decreases_to!(members@[i as int] => members@[i as int].1));
                    let c = (entry.0.clone(), entry.1.copy());
                    let ghost before = copies@;
                    copies.push(c);
                    assert(copies@.drop_last() == before);
                    assert(members@.take(i + 1).drop_last() == members@.take(i as int));
                    i += 1;
                }
                assert(members@.take(i as int) == members@);
                Json::Object(copies)
            },
        }
    }

    /// The member of an object with the given name.
    pub fn get(&self, key: &str) -> (r: Option<&Json>)
        ensures
            match r {
                Some(v) => self@.member(key@) == Some(v@),
                None => self@.member(key@) is None,
            },
    {
        match self {
            Json::Object(members) => match position(members, key) {
                Some(i) => {
                    proof {
                        lemma_member_found(members@, i as int, key@);
                    }
                    Some(&members[i].1)
                },
                None => {
                    proof {
                        lemma_member_missing(members@, key@);
                    }
                    None
                },
            },
            _ => None,
        }
    }

    pub fn as_str(&self) -> (r: Option<&str>)
        ensures
            match r {
                Some(s) => self@ == JsonView::Text(s@),
                None => !(self@ is Text),
            },
    {
        match self {
            Json::Text(s) => Some(s.as_str()),
            _ => None,
        }
    }

    pub fn as_bool(&self) -> (r: Option<bool>)
        ensures
            match r {
                Some(b) => self@ == JsonView::Bool(b),
                None => !(self@ is Bool),
            },
    {
        match self {
            Json::Bool(b) => Some(*b),
            _ => None,
        }
    }

    /// The value as an integer that is not negative.
    pub fn as_u64(&self) -> (r: Option<u64>)
        ensures
            match r {
                Some(n) => self@ == JsonView::PosInt(n),
                None => !(self@ is PosInt),
            },
    {
        match self {
            Json::PosInt(n) => Some(*n),
            _ => None,
        }
    }

    pub fn as_array(&self) -> (r: Option<&Vec<Json>>)
        ensures
            match r {
                Some(items) => self@ == JsonView::Array(item_models(items@)),
                None => !(self@ is Array),
            },
    {
        match self {
            Json::Array(items) => Some(items),
            _ => None,
        }
    }

    /// Enriches this value by `new`.
    pub fn merge(&mut self, new: &Json)
        ensures
            final(self)@ == old(self)@.merged(new@),
    {
        if let Json::Null = new {
            return ;
        }
        let mut enriched = new.copy();
        if let (Json::Object(known), Json::Object(members)) = (&*self, &mut enriched) {
            let ghost more = member_models(members@);
            let mut i: usize = 0;
            assert(more.union_prefer_right(member_models(known@.take(0))) == more);
            while i < known.len()
                invariant
                    i <= known.len(),
                    member_models(members@) == more.union_prefer_right(
                        member_models(known@.take(i as int)),
                    ),
                decreases known.len() - i,
            {
                let ghost so_far = member_models(known@.take(i as int));
                let entry = &known[i];
                put(members, entry.0.clone(), entry.1.copy());
                proof {
                    assert(known@.take(i + 1).drop_last() == known@.take(i as int));
                    assert(more.union_prefer_right(so_far).insert(entry.0@, entry.1@)
                        == more.union_prefer_right(so_far.insert(entry.0@, entry.1@)));
                }
                i += 1;
            }
            assert(known@.take(i as int) == known@);
        }
        *self = enriched;
    }
}

impl Clone for Json {
    fn clone(&self) -> (r: Self)
        ensures
            r@ == self@,
    {
        self.copy()
    }
}

/// Merging never overwrites: every member that was there keeps its value, and
/// the members that were not there are gained.
pub proof fn law_merge_keeps_every_member(
    old: Map<Seq<char>, JsonView>,
    new: JsonView,
    key: Seq<char>,
)
    requires
        new is Object || new is Null,
    ensures
        old.contains_key(key) ==> JsonView::Object(old).merged(new).member(key) == Some(old[key]),
        !old.contains_key(key) ==> JsonView::Object(old).merged(new).member(key) == new.member(key),
{
}

/// Merging a value a second time changes nothing.
pub proof fn law_merge_is_idempotent(old: JsonView, new: JsonView)
    ensures
        old.merged(new).merged(new) == old.merged(new),
{
    if let (JsonView::Object(a), JsonView::Object(b)) = (old, new) {
        assert(b.union_prefer_right(b.union_prefer_right(a)) == b.union_prefer_right(a));
    }
    if let JsonView::Object(b) = new {
        assert(b.union_prefer_right(b) == b);
    }
}

} // verus!
