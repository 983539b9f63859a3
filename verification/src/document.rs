//! TOML documents, as far as pipelines are written in them.
use vstd::prelude::*;

use crate::json::{item_models, member_models, opt_text, put, Json, JsonView};
use crate::text::{copy_text, same_text};

verus! {

/// A value of a TOML document, as the reader hands it out. A float is kept as
/// the bits of its IEEE 754 double; of one that is infinite or not a number
/// only that is known. A date or time is a table with the one entry
/// `DATETIME_KEY`. The entries of a table stand as they are written.
#[derive(Debug)]
pub enum Document {
    Text(String),
    Integer(i64),
    Float(u64),
    NonFinite,
    Boolean(bool),
    Array(Vec<Document>),
    Table(Vec<(String, Document)>),
}

/// The mathematical model of a value of a document.
pub enum DocumentView {
    Text(Seq<char>),
    Integer(i64),
    Float(u64),
    NonFinite,
    Boolean(bool),
    Array(Seq<DocumentView>),
    Table(Seq<(Seq<char>, DocumentView)>),
}

impl Document {
    pub open spec fn model(self) -> DocumentView
        decreases self,
    {
        match self {
            Document::Text(s) => DocumentView::Text(s@),
            Document::Integer(n) => DocumentView::Integer(n),
            Document::Float(bits) => DocumentView::Float(bits),
            Document::NonFinite => DocumentView::NonFinite,
            Document::Boolean(b) => DocumentView::Boolean(b),
            Document::Array(items) => DocumentView::Array(part_models(items@)),
            Document::Table(entries) => DocumentView::Table(row_models(entries@)),
        }
    }
}

impl View for Document {
    type V = DocumentView;

    open spec fn view(&self) -> DocumentView {
        self.model()
    }
}

/// The models of the items of an array of a document.
pub open spec fn part_models(items: Seq<Document>) -> Seq<DocumentView>
    decreases items,
{
    if items.len() == 0 {
        Seq::empty()
    } else {
        part_models(items.drop_last()).push(items.last().model())
    }
}

/// The models of the entries of a table of a document, in order.
pub open spec fn row_models(entries: Seq<(String, Document)>) -> Seq<(Seq<char>, DocumentView)>
    decreases entries,
{
    if entries.len() == 0 {
        Seq::empty()
    } else {
        row_models(entries.drop_last()).push((entries.last().0@, entries.last().1.model()))
    }
}

/// A TOML value. A float is kept as the bits of its IEEE 754 double, or only as
/// one that is infinite or not a number; a date or time as it is written. Of
/// entries of a table with the same name the last one counts.
#[derive(Debug)]
pub enum Toml {
    Text(String),
    Integer(i64),
    Float(u64),
    NonFinite,
    Boolean(bool),
    Datetime(String),
    Array(Vec<Toml>),
    Table(Vec<(String, Toml)>),
}

/// The mathematical model of a TOML value.
pub enum TomlView {
    Text(Seq<char>),
    Integer(i64),
    Float(u64),
    NonFinite,
    Boolean(bool),
    Datetime(Seq<char>),
    Array(Seq<TomlView>),
    Table(Map<Seq<char>, TomlView>),
}

impl Toml {
    pub open spec fn model(self) -> TomlView
        decreases self,
    {
        match self {
            Toml::Text(s) => TomlView::Text(s@),
            Toml::Integer(n) => TomlView::Integer(n),
            Toml::Float(bits) => TomlView::Float(bits),
            Toml::NonFinite => TomlView::NonFinite,
            Toml::Boolean(b) => TomlView::Boolean(b),
            Toml::Datetime(s) => TomlView::Datetime(s@),
            Toml::Array(items) => TomlView::Array(value_models(items@)),
            Toml::Table(entries) => TomlView::Table(entry_models(entries@)),
        }
    }
}

impl View for Toml {
    type V = TomlView;

    open spec fn view(&self) -> TomlView {
        self.model()
    }
}

/// The models of the items of an array.
pub open spec fn value_models(items: Seq<Toml>) -> Seq<TomlView>
    decreases items,
{
    if items.len() == 0 {
        Seq::empty()
    } else {
        value_models(items.drop_last()).push(items.last().model())
    }
}

/// The models of the entries of a table, by name.
pub open spec fn entry_models(entries: Seq<(String, Toml)>) -> Map<Seq<char>, TomlView>
    decreases entries,
{
    if entries.len() == 0 {
        Map::empty()
    } else {
        entry_models(entries.drop_last()).insert(entries.last().0@, entries.last().1.model())
    }
}

/// A TOML table.
#[derive(Debug)]
pub struct TomlTable {
    pub entries: Vec<(String, Toml)>,
}

impl View for TomlTable {
    type V = Map<Seq<char>, TomlView>;

    open spec fn view(&self) -> Map<Seq<char>, TomlView> {
        entry_models(self.entries@)
    }
}

/// A value of the kind that the TOML reader is asked for.
#[verifier::external_type_specification]
#[verifier::external_body]
pub struct ExJsonValue(serde_json::Value);

/// What a value from the TOML reader holds.
pub uninterp spec fn reader_contents(v: serde_json::Value) -> DocumentView;

/// The document that a text is, or what is wrong with the text.
pub uninterp spec fn toml_document(text: Seq<char>) -> Result<DocumentView, Seq<char>>;

/// The date or time that a text is, as TOML writes it.
pub uninterp spec fn datetime_in(text: Seq<char>) -> Option<Seq<char>>;

/// `toml::from_str` into a `serde_json::Value`, whose objects keep the order of
/// their members: the document that the text is, or the message of the error.
/// Both depend on the text alone; which they are, is left to the TOML reader.
#[verifier::external_body]
fn read_document(text: &str) -> (r: Result<serde_json::Value, String>)
    ensures
        match r {
            Ok(v) => toml_document(text@) == Ok::<DocumentView, Seq<char>>(reader_contents(v)),
            Err(m) => toml_document(text@) == Err::<DocumentView, Seq<char>>(m@),
        },
{
    toml::from_str::<serde_json::Value>(text).map_err(|e| e.to_string())
}

/// The variants of a `serde_json::Value`, moved one by one into the type of
/// this library. Asked for such a value, the TOML reader hands out an `i64` for
/// an integer, a finite `f64` for any other number, and `Null` for a float that
/// is infinite or not a number, and for nothing else.
#[verifier::external_body]
fn unpack(v: serde_json::Value) -> (r: Document)
    ensures
        r@ == reader_contents(v),
{
    match v {
        serde_json::Value::Null => Document::NonFinite,
        serde_json::Value::Bool(b) => Document::Boolean(b),
        serde_json::Value::Number(n) => match n.as_i64() {
            Some(i) => Document::Integer(i),
            None => Document::Float(n.as_f64().map_or(0, |f| f.to_bits())),
        },
        serde_json::Value::String(s) => Document::Text(s),
        serde_json::Value::Array(a) => Document::Array(a.into_iter().map(unpack).collect()),
        serde_json::Value::Object(o) => {
            Document::Table(o.into_iter().map(|(k, v)| (k, unpack(v))).collect())
        },
    }
}

/// `toml::value::Datetime::from_str`, and what came of it as `Display` writes
/// it: the date or time that the text is, if it is one. It depends on the text
/// alone; which it is, is left to the TOML reader.
#[verifier::external_body]
fn read_datetime(text: &str) -> (r: Option<String>)
    ensures
        opt_text(r) == datetime_in(text@),
{
    text.parse::<toml::value::Datetime>().ok().map(|d| d.to_string())
}

/// The document that a text is, or what is wrong with the text.
pub fn parse_document(text: &str) -> (r: Result<Document, String>)
    ensures
        match r {
            Ok(v) => toml_document(text@) == Ok::<DocumentView, Seq<char>>(v@),
            Err(m) => toml_document(text@) == Err::<DocumentView, Seq<char>>(m@),
        },
{
    match read_document(text) {
        Ok(v) => Ok(unpack(v)),
        Err(m) => Err(m),
    }
}

pub proof fn lemma_part_models(items: Seq<Document>)
    ensures
        part_models(items).len() == items.len(),
        forall|i: int|
            0 <= i < items.len() ==> part_models(items)[i] == (#[trigger] items[i]).model(),
    decreases items.len(),
{
    if items.len() > 0 {
        lemma_part_models(items.drop_last());
        assert forall|i: int| 0 <= i < items.len() implies part_models(items)[i] == (
        #[trigger] items[i]).model() by {
            if i < items.len() - 1 {
                assert(items.drop_last()[i] == items[i]);
            }
        }
    }
}

proof fn lemma_row_models(entries: Seq<(String, Document)>)
    ensures
        row_models(entries).len() == entries.len(),
        forall|i: int|
            0 <= i < entries.len() ==> row_models(entries)[i] == (
                (#[trigger] entries[i]).0@,
                entries[i].1.model(),
            ),
    decreases entries.len(),
{
    if entries.len() > 0 {
        lemma_row_models(entries.drop_last());
        assert forall|i: int| 0 <= i < entries.len() implies row_models(entries)[i] == (
            (#[trigger] entries[i]).0@,
            entries[i].1.model(),
        ) by {
            if i < entries.len() - 1 {
                assert(entries.drop_last()[i] == entries[i]);
            }
        }
    }
}

/// The last entry with the given name.
pub open spec fn entry_named(entries: Seq<(Seq<char>, DocumentView)>, key: Seq<char>) -> Option<
    DocumentView,
>
    decreases entries.len(),
{
    if entries.len() == 0 {
        None
    } else if entries.last().0 == key {
        Some(entries.last().1)
    } else {
        entry_named(entries.drop_last(), key)
    }
}

proof fn lemma_entry_found(entries: Seq<(Seq<char>, DocumentView)>, i: int, key: Seq<char>)
    requires
        0 <= i < entries.len(),
        entries[i].0 == key,
        forall|j: int| i < j < entries.len() ==> (#[trigger] entries[j]).0 != key,
    ensures
        entry_named(entries, key) == Some(entries[i].1),
    decreases entries.len(),
{
    if i < entries.len() - 1 {
        assert(entries[entries.len() - 1].0 != key);
        lemma_entry_found(entries.drop_last(), i, key);
    }
}

proof fn lemma_entry_missing(entries: Seq<(Seq<char>, DocumentView)>, key: Seq<char>)
    requires
        forall|j: int| 0 <= j < entries.len() ==> (#[trigger] entries[j]).0 != key,
    ensures
        entry_named(entries, key) is None,
    decreases entries.len(),
{
    if entries.len() > 0 {
        assert(entries[entries.len() - 1].0 != key);
        lemma_entry_missing(entries.drop_last(), key);
    }
}

/// The entry by which a date or time is told from a table, and under which JSON
/// shows it.
pub const DATETIME_KEY: &'static str = "$__toml_private_datetime";

impl DocumentView {
    /// The field of a record: by its name in a table, by its position in an
    /// array.
    pub open spec fn field(self, position: int, key: Seq<char>) -> Option<DocumentView> {
        match self {
            DocumentView::Table(entries) => entry_named(entries, key),
            DocumentView::Array(items) if position < items.len() => Some(items[position]),
            _ => None,
        }
    }

    /// The TOML value that stands here. A table that begins with
    /// `DATETIME_KEY` is a date or time, or no value at all.
    pub open spec fn value(self) -> Option<TomlView>
        decreases self,
    {
        match self {
            DocumentView::Text(s) => Some(TomlView::Text(s)),
            DocumentView::Integer(n) => Some(TomlView::Integer(n)),
            DocumentView::Float(bits) => Some(TomlView::Float(bits)),
            DocumentView::NonFinite => Some(TomlView::NonFinite),
            DocumentView::Boolean(b) => Some(TomlView::Boolean(b)),
            DocumentView::Array(items) => match values_of(items) {
                Some(values) => Some(TomlView::Array(values)),
                None => None,
            },
            DocumentView::Table(entries) => if entries.len() > 0 && entries[0].0 == DATETIME_KEY@ {
                match entries[0].1 {
                    DocumentView::Text(s) => match datetime_in(s) {
                        Some(d) => Some(TomlView::Datetime(d)),
                        None => None,
                    },
                    _ => None,
                }
            } else {
                match table_of(entries) {
                    Some(values) => Some(TomlView::Table(values)),
                    None => None,
                }
            },
        }
    }
}

/// The TOML values of the items of an array.
pub open spec fn values_of(items: Seq<DocumentView>) -> Option<Seq<TomlView>>
    decreases items,
{
    if items.len() == 0 {
        Some(Seq::empty())
    } else {
        match (values_of(items.drop_last()), items.last().value()) {
            (Some(values), Some(v)) => Some(values.push(v)),
            _ => None,
        }
    }
}

/// The TOML values of the entries of a table, by name.
pub open spec fn table_of(entries: Seq<(Seq<char>, DocumentView)>) -> Option<
    Map<Seq<char>, TomlView>,
>
    decreases entries,
{
    if entries.len() == 0 {
        Some(Map::empty())
    } else {
        match (table_of(entries.drop_last()), entries.last().1.value()) {
            (Some(values), Some(v)) => Some(values.insert(entries.last().0, v)),
            _ => None,
        }
    }
}

proof fn lemma_no_values(items: Seq<DocumentView>, n: int)
    requires
        0 <= n <= items.len(),
        values_of(items.take(n)) is None,
    ensures
        values_of(items) is None,
    decreases items.len(),
{
    if n == items.len() {
        assert(items.take(n) == items);
    } else {
        assert(items.drop_last().take(n) == items.take(n));
        lemma_no_values(items.drop_last(), n);
    }
}

proof fn lemma_no_table(entries: Seq<(Seq<char>, DocumentView)>, n: int)
    requires
        0 <= n <= entries.len(),
        table_of(entries.take(n)) is None,
    ensures
        table_of(entries) is None,
    decreases entries.len(),
{
    if n == entries.len() {
        assert(entries.take(n) == entries);
    } else {
        assert(entries.drop_last().take(n) == entries.take(n));
        lemma_no_table(entries.drop_last(), n);
    }
}

impl Document {
    /// The field of a record: by its name in a table, by its position in an
    /// array.
    pub fn field(&self, position: usize, key: &str) -> (r: Option<&Document>)
        ensures
            match r {
                Some(v) => self@.field(position as int, key@) == Some(v@),
                None => self@.field(position as int, key@) is None,
            },
    {
        match self {
            Document::Table(entries) => {
                let ghost rows = row_models(entries@);
                proof {
                    lemma_row_models(entries@);
                }
                let mut i: usize = entries.len();
                while i > 0
                    invariant
                        i <= entries@.len(),
                        *self == Document::Table(*entries),
                        rows == row_models(entries@),
                        rows.len() == entries@.len(),
                        forall|j: int|
                            0 <= j < entries@.len() ==> rows[j] == (
                                (#[trigger] entries@[j]).0@,
                                entries@[j].1.model(),
                            ),
                        forall|j: int| i <= j < rows.len() ==> (#[trigger] rows[j]).0 != key@,
                    decreases i,
                {
                    assert(rows[i - 1] == (entries@[i - 1].0@, entries@[i - 1].1.model()));
                    if same_text(entries[i - 1].0.as_str(), key) {
                        proof {
                            lemma_entry_found(rows, i - 1, key@);
                        }
                        return Some(&entries[i - 1].1);
                    }
                    i -= 1;
                }
                proof {
                    lemma_entry_missing(rows, key@);
                }
                None
            },
            Document::Array(items) => {
                proof {
                    lemma_part_models(items@);
                }
                if position < items.len() {
                    Some(&items[position])
                } else {
                    None
                }
            },
            _ => None,
        }
    }

    /// The TOML value that stands here. A table that begins with
    /// `DATETIME_KEY` is a date or time, or no value at all.
    pub fn value(&self) -> (r: Option<Toml>)
        ensures
            match r {
                Some(v) => self@.value() == Some(v@),
                None => self@.value() is None,
            },
        decreases self,
    {
        match self {
            Document::Text(s) => Some(Toml::Text(s.clone())),
            Document::Integer(n) => Some(Toml::Integer(*n)),
            Document::Float(bits) => Some(Toml::Float(*bits)),
            Document::NonFinite => Some(Toml::NonFinite),
            Document::Boolean(b) => Some(Toml::Boolean(*b)),
            Document::Array(items) => {
                let ghost parts = part_models(items@);
                proof {
                    lemma_part_models(items@);
                }
                let mut values: Vec<Toml> = Vec::new();
                let mut i: usize = 0;
                while i < items.len()
                    invariant
                        i <= items.len(),
                        *self == Document::Array(*items),
                        parts == part_models(items@),
                        parts.len() == items.len(),
                        forall|k: int|
                            0 <= k < items.len() ==> parts[k] == (#[trigger] items@[k]).model(),
                        values_of(parts.take(i as int)) == Some(value_models(values@)),
                    decreases items.len() - i,
                {
                    assert(decreases_to!(self => self->Array_0));
                    assert(decreases_to!(self->Array_0 => items@));
                    assert(decreases_to!(items@ => items@[i as int]));
                    assert(parts.take(i + 1).drop_last() == parts.take(i as int));
                    assert(parts.take(i + 1).last() == items@[i as int].model());
                    match items[i].value() {
                        Some(v) => {
                            let ghost before = values@;
                            values.push(v);
                            assert(values@.drop_last() == before);
                        },
                        None => {
                            proof {
                                lemma_no_values(parts, i + 1);
                            }
                            return None;
                        },
                    }
                    i += 1;
                }
                assert(parts.take(i as int) == parts);
                Some(Toml::Array(values))
            },
            Document::Table(entries) => {
                let ghost rows = row_models(entries@);
                proof {
                    lemma_row_models(entries@);
                }
                if entries.len() > 0 && same_text(entries[0].0.as_str(), DATETIME_KEY) {
                    assert(rows[0] == (entries@[0].0@, entries@[0].1.model()));
                    return match &entries[0].1 {
                        Document::Text(s) => match read_datetime(s.as_str()) {
                            Some(d) => Some(Toml::Datetime(d)),
                            None => None,
                        },
                        _ => None,
                    };
                }
                assert(decreases_to!(self => self->Table_0));
                assert(decreases_to!(self->Table_0 => entries@));
                match read_entries(entries) {
                    Some(values) => Some(Toml::Table(values)),
                    None => None,
                }
            },
        }
    }
}

/// The TOML values of the entries of a table.
pub fn read_entries(entries: &Vec<(String, Document)>) -> (r: Option<Vec<(String, Toml)>>)
    ensures
        match r {
            Some(values) => table_of(row_models(entries@)) == Some(entry_models(values@)),
            None => table_of(row_models(entries@)) is None,
        },
    decreases entries@,
{
    let ghost rows = row_models(entries@);
    proof {
        lemma_row_models(entries@);
    }
    let mut values: Vec<(String, Toml)> = Vec::new();
    let mut i: usize = 0;
    while i < entries.len()
        invariant
            i <= entries.len(),
            rows == row_models(entries@),
            rows.len() == entries.len(),
            forall|k: int|
                0 <= k < entries.len() ==> rows[k] == (
                    (#[trigger] entries@[k]).0@,
                    entries@[k].1.model(),
                ),
            table_of(rows.take(i as int)) == Some(entry_models(values@)),
        decreases entries.len() - i,
    {
        let entry = &entries[i];
        assert(decreases_to!(entries@ => entries@[i as int]));
        assert(decreases_to!(entries@[i as int] => entries@[i as int].1));
        assert(rows.take(i + 1).drop_last() == rows.take(i as int));
        assert(rows.take(i + 1).last() == (entry.0@, entry.1.model()));
        match entry.1.value() {
            Some(v) => {
                let ghost before = values@;
                values.push((entry.0.clone(), v));
                assert(values@.drop_last() == before);
            },
            None => {
                proof {
                    lemma_no_table(rows, i + 1);
                }
                return None;
            },
        }
        i += 1;
    }
    assert(rows.take(i as int) == rows);
    Some(values)
}

impl Toml {
    /// A copy of the value.
    pub fn copy(&self) -> (r: Toml)
        ensures
            r@ == self@,
        decreases self,
    {
        match self {
            Toml::Text(s) => Toml::Text(s.clone()),
            Toml::Integer(n) => Toml::Integer(*n),
            Toml::Float(bits) => Toml::Float(*bits),
            Toml::NonFinite => Toml::NonFinite,
            Toml::Boolean(b) => Toml::Boolean(*b),
            Toml::Datetime(s) => Toml::Datetime(s.clone()),
            Toml::Array(items) => {
                let mut copies: Vec<Toml> = Vec::new();
                let mut i: usize = 0;
                while i < items.len()
                    invariant
                        i <= items.len(),
                        *self == Toml::Array(*items),
                        value_models(copies@) == value_models(items@.take(i as int)),
                    decreases items.len() - i,
                {
                    assert(decreases_to!(self => self->Array_0));
                    assert(decreases_to!(self->Array_0 => items@));
                    assert(decreases_to!(items@ => items@[i as int]));
                    let c = items[i].copy();
                    let ghost before = copies@;
                    copies.push(c);
                    assert(copies@.drop_last() == before);
                    assert(items@.take(i + 1).drop_last() == items@.take(i as int));
                    i += 1;
                }
                assert(items@.take(i as int) == items@);
                Toml::Array(copies)
            },
            Toml::Table(entries) => {
                let mut copies: Vec<(String, Toml)> = Vec::new();
                let mut i: usize = 0;
                while i < entries.len()
                    invariant
                        i <= entries.len(),
                        *self == Toml::Table(*entries),
                        entry_models(copies@) == entry_models(entries@.take(i as int)),
                    decreases entries.len() - i,
                {
                    let entry = &entries[i];
                    assert(decreases_to!(self => self->Table_0));
                    assert(decreases_to!(self->Table_0 => entries@));
                    assert(decreases_to!(entries@ => entries@[i as int]));
                    assert(decreases_to!(entries@[i as int] => entries@[i as int].1));
                    let c = (entry.0.clone(), entry.1.copy());
                    let ghost before = copies@;
                    copies.push(c);
                    assert(copies@.drop_last() == before);
                    assert(entries@.take(i + 1).drop_last() == entries@.take(i as int));
                    i += 1;
                }
                assert(entries@.take(i as int) == entries@);
                Toml::Table(copies)
            },
        }
    }
}

impl Clone for Toml {
    fn clone(&self) -> (r: Self)
        ensures
            r@ == self@,
    {
        self.copy()
    }
}

/// A copy of the entries of a table.
pub fn copy_entries(entries: &Vec<(String, Toml)>) -> (r: Vec<(String, Toml)>)
    ensures
        entry_models(r@) == entry_models(entries@),
{
    let mut copies: Vec<(String, Toml)> = Vec::new();
    let mut i: usize = 0;
    while i < entries.len()
        invariant
            i <= entries.len(),
            entry_models(copies@) == entry_models(entries@.take(i as int)),
        decreases entries.len() - i,
    {
        let entry = &entries[i];
        let ghost before = copies@;
        copies.push((entry.0.clone(), entry.1.copy()));
        assert(copies@.drop_last() == before);
        assert(entries@.take(i + 1).drop_last() == entries@.take(i as int));
        i += 1;
    }
    assert(entries@.take(i as int) == entries@);
    copies
}

impl Clone for TomlTable {
    fn clone(&self) -> (r: Self)
        ensures
            r@ == self@,
    {
        TomlTable { entries: copy_entries(&self.entries) }
    }
}

/// Whether the bits of an IEEE 754 double stand for a finite number.
pub open spec fn is_finite(bits: u64) -> bool {
    bits % 0x8000_0000_0000_0000 < 0x7FF0_0000_0000_0000
}

impl TomlView {
    /// The value shown in JSON: an integer stays an integer, a float that JSON
    /// cannot write becomes `null`, and a date or time becomes an object.
    pub open spec fn in_json(self) -> JsonView
        decreases self,
    {
        match self {
            TomlView::Text(s) => JsonView::Text(s),
            TomlView::Integer(n) => if n >= 0 {
                JsonView::PosInt(n as u64)
            } else {
                JsonView::NegInt(n)
            },
            TomlView::Float(bits) => if is_finite(bits) {
                JsonView::Float(bits)
            } else {
                JsonView::Null
            },
            TomlView::NonFinite => JsonView::Null,
            TomlView::Boolean(b) => JsonView::Bool(b),
            TomlView::Datetime(s) => JsonView::Object(map![DATETIME_KEY@ => JsonView::Text(s)]),
            TomlView::Array(items) => JsonView::Array(array_in_json(items)),
            TomlView::Table(entries) => JsonView::Object(
                Map::new(
                    |k: Seq<char>| entries.contains_key(k),
                    |k: Seq<char>|
                        if entries.contains_key(k) {
                            entries[k].in_json()
                        } else {
                            JsonView::Null
                        },
                ),
            ),
        }
    }
}

/// The items of an array shown in JSON.
pub open spec fn array_in_json(items: Seq<TomlView>) -> Seq<JsonView>
    decreases items,
{
    Seq::new(
        items.len(),
        |i: int|
            if 0 <= i < items.len() {
                items[i].in_json()
            } else {
                JsonView::Null
            },
    )
}

/// The entries of a table shown in JSON.
pub open spec fn table_in_json(entries: Map<Seq<char>, TomlView>) -> Map<Seq<char>, JsonView> {
    Map::new(|k: Seq<char>| entries.contains_key(k), |k: Seq<char>| entries[k].in_json())
}

pub proof fn lemma_table_in_json(entries: Map<Seq<char>, TomlView>)
    ensures
        TomlView::Table(entries).in_json() == JsonView::Object(table_in_json(entries)),
{
    match TomlView::Table(entries).in_json() {
        JsonView::Object(shown) => {
            assert(shown =~= table_in_json(entries));
        },
        _ => {},
    }
}

proof fn lemma_array_in_json_push(items: Seq<TomlView>, v: TomlView)
    ensures
        array_in_json(items.push(v)) == array_in_json(items).push(v.in_json()),
{
    assert(array_in_json(items.push(v)) =~= array_in_json(items).push(v.in_json()));
}

proof fn lemma_table_in_json_insert(entries: Map<Seq<char>, TomlView>, k: Seq<char>, v: TomlView)
    ensures
        table_in_json(entries.insert(k, v)) == table_in_json(entries).insert(k, v.in_json()),
{
    assert(table_in_json(entries.insert(k, v)) =~= table_in_json(entries).insert(k, v.in_json()));
}

/// A TOML value shown in JSON.
pub fn to_json(v: &Toml) -> (r: Json)
    ensures
        r@ == v@.in_json(),
    decreases v,
{
    match v {
        Toml::Text(s) => Json::Text(s.clone()),
        Toml::Integer(n) => if *n >= 0 {
            Json::PosInt(*n as u64)
        } else {
            Json::NegInt(*n)
        },
        Toml::Float(bits) => if *bits % 0x8000_0000_0000_0000 < 0x7FF0_0000_0000_0000 {
            Json::Float(*bits)
        } else {
            Json::Null
        },
        Toml::NonFinite => Json::Null,
        Toml::Boolean(b) => Json::Bool(*b),
        Toml::Datetime(s) => {
            let mut members: Vec<(String, Json)> = Vec::new();
            put(&mut members, copy_text(DATETIME_KEY), Json::Text(s.clone()));
            proof {
                assert(member_models(members@) == map![DATETIME_KEY@ => JsonView::Text(s@)]);
            }
            Json::Object(members)
        },
        Toml::Array(items) => {
            let mut shown: Vec<Json> = Vec::new();
            let mut i: usize = 0;
            while i < items.len()
                invariant
                    i <= items.len(),
                    *v == Toml::Array(*items),
                    item_models(shown@) == array_in_json(value_models(items@.take(i as int))),
                decreases items.len() - i,
            {
                assert(decreases_to!(v => v->Array_0));
                assert(decreases_to!(v->Array_0 => items@));
                assert(decreases_to!(items@ => items@[i as int]));
                let s = to_json(&items[i]);
                let ghost before = shown@;
                shown.push(s);
                proof {
                    lemma_array_in_json_push(
                        value_models(items@.take(i as int)),
                        items@[i as int]@,
                    );
                }
                assert(shown@.drop_last() == before);
                assert(items@.take(i + 1).drop_last() == items@.take(i as int));
                i += 1;
            }
            assert(items@.take(i as int) == items@);
            Json::Array(shown)
        },
        Toml::Table(entries) => {
            let mut shown: Vec<(String, Json)> = Vec::new();
            let mut i: usize = 0;
            while i < entries.len()
                invariant
                    i <= entries.len(),
                    *v == Toml::Table(*entries),
                    member_models(shown@) == table_in_json(entry_models(entries@.take(i as int))),
                decreases entries.len() - i,
            {
                let entry = &entries[i];
                assert(decreases_to!(v => v->Table_0));
                assert(decreases_to!(v->Table_0 => entries@));
                assert(decreases_to!(entries@ => entries@[i as int]));
                assert(decreases_to!(entries@[i as int] => entries@[i as int].1));
                let s = to_json(&entry.1);
                put(&mut shown, entry.0.clone(), s);
                proof {
                    lemma_table_in_json_insert(
                        entry_models(entries@.take(i as int)),
                        entry.0@,
                        entry.1@,
                    );
                }
                assert(entries@.take(i + 1).drop_last() == entries@.take(i as int));
                i += 1;
            }
            assert(entries@.take(i as int) == entries@);
            proof {
                lemma_table_in_json(entry_models(entries@));
            }
            Json::Object(shown)
        },
    }
}

} // verus!
