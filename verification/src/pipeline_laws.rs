//! What holds of pipelines that were written down and are read, and of the
//! settings that plugins see.
use vstd::prelude::*;

use crate::document::{
    array_in_json, datetime_in, entry_named, is_finite, lemma_table_in_json, table_in_json,
    table_of, toml_document, values_of, DocumentView, TomlView, DATETIME_KEY,
};
use crate::engine::{unknown_plugin, ExecutionEngine};
use crate::error::{Error, ErrorView};
use crate::json::JsonView;
use crate::order::{assert_acyclic, loop_complaint};
use crate::pipeline::{
    accepted, file_in, first_repeat, law_accepted_pipelines_are_valid, lemma_first_at,
    pipeline_in, stage_in, stages_in, PipelineDef, PipelineView, StageView,
};
use crate::plugin::ReconPlugin;
use crate::text_laws::law_the_first_option_counts;

verus! {

/// An entry of a table is found under its name, if no other has that name; a
/// name that no entry has is not found.
pub proof fn law_entries_are_found_by_name(
    entries: Seq<(Seq<char>, DocumentView)>,
    key: Seq<char>,
    i: int,
)
    ensures
        0 <= i < entries.len() && entries[i].0 == key && (forall|j: int|
            0 <= j < entries.len() && j != i ==> (#[trigger] entries[j]).0 != key) ==> entry_named(
            entries,
            key,
        ) == Some(entries[i].1),
        (forall|j: int| 0 <= j < entries.len() ==> (#[trigger] entries[j]).0 != key)
            ==> entry_named(entries, key) is None,
    decreases entries.len(),
{
    if entries.len() > 0 {
        let front = entries.drop_last();
        law_entries_are_found_by_name(front, key, i);
        assert forall|j: int| 0 <= j < front.len() implies front[j] == #[trigger] entries[j] by {}
        assert(entries[entries.len() - 1] == entries.last());
    }
}

/// Texts, numbers and truth values are read as what they are; a list is read
/// item by item, and cannot be read only if an item cannot.
pub proof fn law_values_are_read_as_written(
    s: Seq<char>,
    n: i64,
    bits: u64,
    b: bool,
    items: Seq<DocumentView>,
)
    ensures
        DocumentView::Text(s).value() == Some(TomlView::Text(s)),
        DocumentView::Integer(n).value() == Some(TomlView::Integer(n)),
        DocumentView::Float(bits).value() == Some(TomlView::Float(bits)),
        DocumentView::Boolean(b).value() == Some(TomlView::Boolean(b)),
        match DocumentView::Array(items).value() {
            Some(v) => v is Array && v->Array_0.len() == items.len() && forall|i: int|
                0 <= i < items.len() ==> (#[trigger] items[i]).value() == Some(v->Array_0[i]),
            None => exists|i: int| 0 <= i < items.len() && (#[trigger] items[i]).value() is None,
        },
    decreases items.len(),
{
    if items.len() > 0 {
        let front = items.drop_last();
        law_values_are_read_as_written(s, n, bits, b, front);
        assert forall|i: int| 0 <= i < front.len() implies front[i] == #[trigger] items[i] by {}
        if values_of(items) is None {
            if values_of(front) is None {
                let i = choose|i: int| 0 <= i < front.len() && (#[trigger] front[i]).value() is None;
                assert(items[i].value() is None);
            } else {
                assert(items[items.len() - 1].value() is None);
            }
        } else {
            let vs = values_of(items)->0;
            assert forall|i: int| 0 <= i < items.len() implies (#[trigger] items[i]).value()
                == Some(vs[i]) by {
                if i < front.len() {
                    assert(front[i] == items[i]);
                }
            }
        }
    }
}

/// The entries of a table are read under their own names and no others; of two
/// with the same name the last one counts.
pub proof fn law_tables_are_read_entry_by_entry(
    entries: Seq<(Seq<char>, DocumentView)>,
    key: Seq<char>,
)
    requires
        table_of(entries) is Some,
    ensures
        match entry_named(entries, key) {
            Some(v) => table_of(entries)->0.contains_key(key) && v.value() == Some(
                table_of(entries)->0[key],
            ),
            None => !table_of(entries)->0.contains_key(key),
        },
    decreases entries.len(),
{
    if entries.len() > 0 {
        law_tables_are_read_entry_by_entry(entries.drop_last(), key);
    }
}

/// The settings that a plugin sees are those that were written, and no others:
/// a truth value as that truth value, a number as that number, a text as that
/// text.
pub proof fn law_settings_are_as_written(table: Map<Seq<char>, TomlView>, key: Seq<char>)
    ensures
        ({
            let shown = JsonView::Object(table_in_json(table));
            &&& !table.contains_key(key) ==> shown.member(key) is None && shown.bool_member(key)
                is None && shown.number_member(key) is None && shown.text_member(key) is None
                && shown.array_member(key) is None
            &&& table.contains_key(key) ==> shown->Object_0.contains_key(key) && shown.member(key)
                == Some(shown->Object_0[key])
            &&& table.contains_key(key) ==> match table[key] {
                TomlView::Boolean(b) => shown->Object_0[key] == JsonView::Bool(b)
                    && shown.bool_member(key) == Some(b),
                TomlView::Integer(n) => if n >= 0 {
                    shown->Object_0[key] == JsonView::PosInt(n as u64) && shown.number_member(key)
                        == Some(n as u64)
                } else {
                    shown->Object_0[key] == JsonView::NegInt(n) && shown.number_member(key) is None
                },
                TomlView::Float(bits) => is_finite(bits) ==> shown->Object_0[key]
                    == JsonView::Float(bits),
                TomlView::NonFinite => shown->Object_0[key] == JsonView::Null,
                TomlView::Text(s) => shown->Object_0[key] == JsonView::Text(s)
                    && shown.text_member(key) == Some(s),
                TomlView::Datetime(s) => shown->Object_0[key] is Object
                    && shown->Object_0[key]->Object_0.contains_key("$__toml_private_datetime"@)
                    && shown->Object_0[key]->Object_0["$__toml_private_datetime"@]
                    == JsonView::Text(s),
                TomlView::Array(items) => shown.array_member(key) is Some && shown.array_member(
                    key,
                )->0.len() == items.len(),
                TomlView::Table(_) => shown->Object_0[key] is Object,
            }
        }),
{
    if table.contains_key(key) {
        let v = table[key];
        assert(table_in_json(table)[key] == v.in_json());
        match v {
            TomlView::Array(items) => {
                assert(v.in_json() == JsonView::Array(array_in_json(items)));
                assert(array_in_json(items).len() == items.len());
            },
            TomlView::Datetime(s) => {
                assert(v.in_json()->Object_0 == map![DATETIME_KEY@ => JsonView::Text(s)]);
                assert(DATETIME_KEY@ == "$__toml_private_datetime"@);
            },
            _ => {},
        }
    }
}

/// The items of a list are seen at their places, and the entries of a table
/// within a table under their names.
pub proof fn law_nested_settings_are_as_written(
    table: Map<Seq<char>, TomlView>,
    key: Seq<char>,
    i: int,
    inner: Seq<char>,
)
    requires
        table.contains_key(key),
    ensures
        ({
            let shown = table_in_json(table)[key];
            &&& table[key] is Array && 0 <= i < table[key]->Array_0.len() ==> match (
            table[key]->Array_0[i]) {
                TomlView::Boolean(b) => shown->Array_0[i] == JsonView::Bool(b),
                TomlView::Integer(n) => shown->Array_0[i] == if n >= 0 {
                    JsonView::PosInt(n as u64)
                } else {
                    JsonView::NegInt(n)
                },
                TomlView::Text(s) => shown->Array_0[i] == JsonView::Text(s),
                _ => true,
            }
            &&& table[key] is Table ==> (shown->Object_0.contains_key(inner)
                <==> table[key]->Table_0.contains_key(inner))
            &&& table[key] is Table && table[key]->Table_0.contains_key(inner)
                ==> shown->Object_0[inner] == table_in_json(table[key]->Table_0)[inner]
        }),
{
    let v = table[key];
    assert(table_in_json(table)[key] == v.in_json());
    match v {
        TomlView::Array(items) => {
            assert(v.in_json() == JsonView::Array(array_in_json(items)));
            if 0 <= i < items.len() {
                assert(array_in_json(items)[i] == items[i].in_json());
            }
        },
        TomlView::Table(entries) => {
            lemma_table_in_json(entries);
        },
        _ => {},
    }
}

/// Two tables that differ in a truth value, a number or a text give different
/// settings.
pub proof fn law_different_settings_are_told_apart(
    a: Map<Seq<char>, TomlView>,
    b: Map<Seq<char>, TomlView>,
    key: Seq<char>,
)
    requires
        a.contains_key(key),
        a[key] is Boolean || a[key] is Integer || a[key] is Text,
        !b.contains_key(key) || (b[key] != a[key] && (b[key] is Boolean || b[key] is Integer
            || b[key] is Text)),
    ensures
        table_in_json(a) != table_in_json(b),
{
    if b.contains_key(key) {
        assert(table_in_json(a)[key] != table_in_json(b)[key]);
    } else {
        assert(table_in_json(a).contains_key(key));
        assert(!table_in_json(b).contains_key(key));
    }
}

/// A stage is read from a table field by field. Name, plugin and input must be
/// there; without the others a stage waits for nothing more, has no settings,
/// no timeout and no retries.
pub proof fn law_stages_are_read_field_by_field(
    entries: Seq<(Seq<char>, DocumentView)>,
    name: Seq<char>,
    plugin: Seq<char>,
    input: Seq<char>,
    depends_on: Seq<Seq<char>>,
    config: Seq<(Seq<char>, DocumentView)>,
    timeout_secs: i64,
    retries: i64,
)
    requires
        entry_named(entries, "name"@) == Some(DocumentView::Text(name)),
        entry_named(entries, "plugin"@) == Some(DocumentView::Text(plugin)),
        entry_named(entries, "input"@) == Some(DocumentView::Text(input)),
        entry_named(entries, "depends_on"@) is None || entry_named(entries, "depends_on"@) == Some(
            DocumentView::Array(depends_on.map_values(|d: Seq<char>| DocumentView::Text(d))),
        ),
        entry_named(entries, "config"@) is None || entry_named(entries, "config"@) == Some(
            DocumentView::Table(config),
        ),
        entry_named(entries, "timeout_secs"@) is None || entry_named(entries, "timeout_secs"@)
            == Some(DocumentView::Integer(timeout_secs)),
        entry_named(entries, "retries"@) is None || entry_named(entries, "retries"@) == Some(
            DocumentView::Integer(retries),
        ),
        table_of(config) is Some,
        timeout_secs >= 0,
        0 <= retries <= u32::MAX,
    ensures
        stage_in(DocumentView::Table(entries)) is Some,
        ({
            let s = stage_in(DocumentView::Table(entries))->0;
            &&& s.name == name
            &&& s.plugin == plugin
            &&& s.input == input
            &&& s.depends_on == if entry_named(entries, "depends_on"@) is Some {
                depends_on
            } else {
                Seq::empty()
            }
            &&& s.config == if entry_named(entries, "config"@) is Some {
                table_of(config)->0
            } else {
                Map::empty()
            }
            &&& s.timeout_secs == if entry_named(entries, "timeout_secs"@) is Some {
                Some(timeout_secs as u64)
            } else {
                None
            }
            &&& s.retries as int == if entry_named(entries, "retries"@) is Some {
                retries as int
            } else {
                0
            }
        }),
{
    let listed = depends_on.map_values(|d: Seq<char>| DocumentView::Text(d));
    assert forall|i: int| 0 <= i < listed.len() implies (#[trigger] listed[i]) is Text by {}
    assert(listed.map_values(|t: DocumentView| t->Text_0) == depends_on);
}

/// A table without a name, a plugin or an input describes no stage, and neither
/// does one where these are no texts.
pub proof fn law_stages_need_name_plugin_and_input(
    entries: Seq<(Seq<char>, DocumentView)>,
    key: Seq<char>,
)
    requires
        key == "name"@ || key == "plugin"@ || key == "input"@,
        !(entry_named(entries, key) matches Some(DocumentView::Text(_))),
    ensures
        stage_in(DocumentView::Table(entries)) is None,
{
}

/// A number of retries or a timeout that is negative or no number, and retries
/// beyond 32 bits, describe no stage.
pub proof fn law_stages_need_numbers_in_range(entries: Seq<(Seq<char>, DocumentView)>)
    requires
        match entry_named(entries, "retries"@) {
            None => false,
            Some(DocumentView::Integer(n)) => n < 0 || n > u32::MAX,
            Some(_) => true,
        } || match entry_named(entries, "timeout_secs"@) {
            None => false,
            Some(DocumentView::Integer(n)) => n < 0,
            Some(_) => true,
        },
    ensures
        stage_in(DocumentView::Table(entries)) is None,
{
}

/// Stages are read one by one, in order.
pub proof fn law_stages_are_read_in_order(items: Seq<DocumentView>)
    ensures
        match stages_in(items) {
            Some(stages) => stages.len() == items.len() && forall|i: int|
                0 <= i < items.len() ==> stage_in(#[trigger] items[i]) == Some(stages[i]),
            None => exists|i: int| 0 <= i < items.len() && stage_in(#[trigger] items[i]) is None,
        },
    decreases items.len(),
{
    if items.len() > 0 {
        let front = items.drop_last();
        law_stages_are_read_in_order(front);
        assert forall|i: int| 0 <= i < front.len() implies front[i] == #[trigger] items[i] by {}
        match stages_in(items) {
            Some(stages) => {
                assert forall|i: int| 0 <= i < items.len() implies stage_in(#[trigger] items[i])
                    == Some(stages[i]) by {
                    if i < front.len() {
                        assert(front[i] == items[i]);
                    }
                }
            },
            None => {
                if stages_in(front) is None {
                    let i = choose|i: int|
                        0 <= i < front.len() && stage_in(#[trigger] front[i]) is None;
                    assert(stage_in(items[i]) is None);
                } else {
                    assert(stage_in(items[items.len() - 1]) is None);
                }
            },
        }
    }
}

/// A pipeline is read from the table `pipeline` of a file, field by field. Four
/// stages run at the same time where it does not say otherwise.
pub proof fn law_pipelines_are_read_field_by_field(
    doc: Seq<(Seq<char>, DocumentView)>,
    entries: Seq<(Seq<char>, DocumentView)>,
    name: Seq<char>,
    description: Seq<char>,
    concurrency: i64,
    items: Seq<DocumentView>,
)
    requires
        entry_named(doc, "pipeline"@) == Some(DocumentView::Table(entries)),
        entry_named(entries, "name"@) == Some(DocumentView::Text(name)),
        entry_named(entries, "description"@) is None || entry_named(entries, "description"@)
            == Some(DocumentView::Text(description)),
        entry_named(entries, "concurrency"@) is None || entry_named(entries, "concurrency"@)
            == Some(DocumentView::Integer(concurrency)),
        entry_named(entries, "stages"@) == Some(DocumentView::Array(items)),
        0 <= concurrency <= usize::MAX,
    ensures
        file_in(DocumentView::Table(doc)) is Some <==> stages_in(items) is Some,
        file_in(DocumentView::Table(doc)) is Some ==> {
            let p = file_in(DocumentView::Table(doc))->0;
            &&& p.name == name
            &&& p.description == if entry_named(entries, "description"@) is Some {
                Some(description)
            } else {
                None
            }
            &&& p.concurrency as int == if entry_named(entries, "concurrency"@) is Some {
                concurrency as int
            } else {
                4
            }
            &&& p.stages == stages_in(items)->0
        },
{
}

/// A file without a pipeline, and a pipeline without a name or without a list
/// of stages, cannot be read.
pub proof fn law_pipelines_need_name_and_stages(
    doc: Seq<(Seq<char>, DocumentView)>,
    entries: Seq<(Seq<char>, DocumentView)>,
)
    ensures
        entry_named(doc, "pipeline"@) is None ==> file_in(DocumentView::Table(doc)) is None,
        !(entry_named(entries, "name"@) matches Some(DocumentView::Text(_))) ==> pipeline_in(
            DocumentView::Table(entries),
        ) is None,
        !(entry_named(entries, "stages"@) matches Some(DocumentView::Array(_))) ==> pipeline_in(
            DocumentView::Table(entries),
        ) is None,
{
}

/// What a stage waits for is what it names: its dependencies, and its input
/// unless that is the seed.
pub proof fn law_a_stage_depends_on_what_it_names(s: StageView, dep: Seq<char>)
    ensures
        s.dependencies().contains(dep) <==> s.depends_on.contains(dep) || (s.input == dep && s.input
            != "seed"@),
        s.depends_on.is_prefix_of(s.dependencies()),
{
    let deps = s.dependencies();
    if s.depends_on.contains(dep) {
        let k = s.depends_on.index_of(dep);
        assert(deps[k] == dep);
    }
    if s.input != "seed"@ {
        assert(deps[deps.len() - 1] == s.input);
    }
    if deps.contains(dep) {
        let k = deps.index_of(dep);
        if k < s.depends_on.len() {
            assert(s.depends_on[k] == dep);
        }
    }
}

/// Nothing is wrong with a pipeline if and only if it has a stage, its stages
/// have different names, and every stage names as input and dependencies only
/// the seed and stages of the pipeline.
pub proof fn law_a_pipeline_is_accepted_by_its_names(p: PipelineView)
    ensures
        p.problem() is None <==> {
            &&& p.stages.len() > 0
            &&& forall|i: int, j: int|
                0 <= i < j < p.stages.len() ==> (#[trigger] p.stages[i]).name != (
                #[trigger] p.stages[j]).name
            &&& forall|i: int, dep: Seq<char>|
                #![trigger p.stages[i].depends_on.contains(dep)]
                0 <= i < p.stages.len() && (p.stages[i].depends_on.contains(dep)
                    || p.stages[i].input == dep) ==> dep == "seed"@ || exists|j: int|
                    0 <= j < p.stages.len() && (#[trigger] p.stages[j]).name == dep
        },
{
    law_accepted_pipelines_are_valid(p);
    let names = p.names();
    assert forall|i: int| 0 <= i < p.stages.len() implies names[i] == (
    #[trigger] p.stages[i]).name by {}
    assert forall|dep: Seq<char>| #[trigger] p.known(dep) <==> dep == "seed"@ || exists|j: int|
        0 <= j < p.stages.len() && (#[trigger] p.stages[j]).name == dep by {
        if names.contains(dep) {
            let j = names.index_of(dep);
            assert(p.stages[j].name == dep);
        }
        if exists|j: int| 0 <= j < p.stages.len() && (#[trigger] p.stages[j]).name == dep {
            let j = choose|j: int| 0 <= j < p.stages.len() && (#[trigger] p.stages[j]).name == dep;
            assert(names[j] == dep);
        }
    }
    if p.problem() is None {
        assert forall|i: int, j: int| 0 <= i < j < p.stages.len() implies (
        #[trigger] p.stages[i]).name != (#[trigger] p.stages[j]).name by {
            assert(names[i] != names[j]);
        }
        assert forall|i: int, dep: Seq<char>|
            #![trigger p.stages[i].depends_on.contains(dep)]
            0 <= i < p.stages.len() && (p.stages[i].depends_on.contains(dep) || p.stages[i].input
                == dep) implies dep == "seed"@ || exists|j: int|
            0 <= j < p.stages.len() && (#[trigger] p.stages[j]).name == dep by {
            law_a_stage_depends_on_what_it_names(p.stages[i], dep);
            if dep != "seed"@ {
                let deps = p.stages[i].dependencies();
                let k = deps.index_of(dep);
                assert(p.known(p.stages[i].dependencies()[k]));
            }
        }
    } else {
        if p.stages.len() > 0 && names.no_duplicates() {
            let (i, k) = choose|i: int, k: int|
                0 <= i < p.stages.len() && 0 <= k < p.stages[i].dependencies().len() && !p.known(
                    #[trigger] p.stages[i].dependencies()[k],
                );
            let dep = p.stages[i].dependencies()[k];
            assert(p.stages[i].dependencies().contains(dep));
            law_a_stage_depends_on_what_it_names(p.stages[i], dep);
            assert(p.stages[i].depends_on.contains(dep) || p.stages[i].input == dep);
        } else if p.stages.len() > 0 {
            let (i, j) = choose|i: int, j: int|
                0 <= i < names.len() && 0 <= j < names.len() && i != j && names[i] == names[j];
            if i < j {
                assert(p.stages[i].name == p.stages[j].name);
            } else {
                assert(p.stages[j].name == p.stages[i].name);
            }
        }
    }
}

/// The complaint about a pipeline without stages, and about the first name that
/// stands a second time.
pub proof fn law_what_is_wrong_is_said(p: PipelineView, i: int, j: int)
    ensures
        p.stages.len() == 0 ==> p.problem() == Some("pipeline has no stages"@),
        0 <= i < j < p.stages.len() && p.stages[i].name == p.stages[j].name && (forall|a: int, b: int|
            0 <= a < b < j ==> (#[trigger] p.stages[a]).name != (#[trigger] p.stages[b]).name)
            ==> p.problem() == Some("duplicate stage name '"@ + p.stages[j].name + "'"@),
{
    if 0 <= i < j < p.stages.len() && p.stages[i].name == p.stages[j].name && (forall|
        a: int,
        b: int,
    |
        0 <= a < b < j ==> (#[trigger] p.stages[a]).name != (#[trigger] p.stages[b]).name) {
        let names = p.names();
        assert forall|a: int, b: int| 0 <= a < b < j implies names[a] != names[b] by {
            assert(p.stages[a].name != p.stages[b].name);
        }
        lemma_repeat_is_found(names, i, j);
    }
}

proof fn lemma_repeat_is_found(names: Seq<Seq<char>>, i: int, j: int)
    requires
        0 <= i < j < names.len(),
        names[i] == names[j],
        forall|a: int, b: int| 0 <= a < b < j ==> names[a] != names[b],
    ensures
        first_repeat(names) == Some(names[j]),
    decreases names.len(),
{
    let front = names.drop_last();
    if j < front.len() {
        assert forall|a: int, b: int| 0 <= a < b < j implies front[a] != front[b] by {
            assert(names[a] != names[b]);
        }
        lemma_repeat_is_found(front, i, j);
    } else {
        lemma_no_repeat(front);
        assert(front[i] == names.last());
    }
}

proof fn lemma_no_repeat(names: Seq<Seq<char>>)
    requires
        forall|a: int, b: int| 0 <= a < b < names.len() ==> names[a] != names[b],
    ensures
        first_repeat(names) is None,
    decreases names.len(),
{
    if names.len() > 0 {
        let front = names.drop_last();
        assert forall|a: int, b: int| 0 <= a < b < front.len() implies front[a] != front[b] by {
            assert(names[a] != names[b]);
        }
        lemma_no_repeat(front);
        if front.contains(names.last()) {
            let a = front.index_of(names.last());
            assert(names[a] != names[names.len() - 1]);
        }
    }
}

/// The complaint about a stage that names an unknown stage says which stage
/// names which.
pub proof fn law_an_unknown_stage_is_named(p: PipelineView, s: StageView, k: int)
    requires
        0 <= k < s.dependencies().len(),
        s.dependencies()[k] != "seed"@,
        forall|j: int| 0 <= j < p.stages.len() ==> (#[trigger] p.stages[j]).name
            != s.dependencies()[k],
        forall|i: int|
            0 <= i < k ==> #[trigger] s.dependencies()[i] == "seed"@ || exists|j: int|
                0 <= j < p.stages.len() && (#[trigger] p.stages[j]).name == s.dependencies()[i],
    ensures
        p.loose_end(s) == Some(
            "stage '"@ + s.name + "' depends on unknown stage '"@ + s.dependencies()[k] + "'"@,
        ),
{
    let complaint = |dep: Seq<char>|
        if p.known(dep) {
            None::<Seq<char>>
        } else {
            Some("stage '"@ + s.name + "' depends on unknown stage '"@ + dep + "'"@)
        };
    let deps = s.dependencies();
    let found = deps.map_values(complaint);
    assert(!p.known(deps[k])) by {
        if p.names().contains(deps[k]) {
            let j = p.names().index_of(deps[k]);
            assert(p.stages[j].name == deps[k]);
        }
    }
    assert forall|i: int| 0 <= i < k implies (#[trigger] found[i]) is None by {
        assert(deps[i] == s.dependencies()[i]);
        if deps[i] != "seed"@ {
            let j = choose|j: int|
                0 <= j < p.stages.len() && (#[trigger] p.stages[j]).name == deps[i];
            assert(p.names()[j] == deps[i]);
        }
    }
    assert(found[k] is Some);
    law_the_first_option_counts(found, k);
}

/// The stages of a pipeline can be run in an order if and only if they can be
/// ranked so that each stands above every stage that it names.
pub proof fn law_an_order_goes_by_names(p: PipelineView, rank: Seq<int>)
    requires
        p.names().no_duplicates(),
        rank.len() == p.stages.len(),
    ensures
        p.ranked_by(rank) <==> forall|i: int, j: int|
            0 <= i < p.stages.len() && 0 <= j < p.stages.len() && ((
            #[trigger] p.stages[i]).depends_on.contains((#[trigger] p.stages[j]).name) || (
            p.stages[i].input == p.stages[j].name && p.stages[i].input != "seed"@)) ==> rank[j]
                < rank[i],
        p.ranked_by(rank) ==> p.acyclic(),
{
    let names = p.names();
    assert forall|i: int, j: int|
        0 <= i < p.stages.len() && 0 <= j < p.stages.len() implies (p.depends(i, j) <==> ((
    #[trigger] p.stages[i]).depends_on.contains((#[trigger] p.stages[j]).name) || (
    p.stages[i].input == p.stages[j].name && p.stages[i].input != "seed"@))) by {
        let s = p.stages[i];
        let name = p.stages[j].name;
        law_a_stage_depends_on_what_it_names(s, name);
        lemma_first_at(names, name);
        assert(names[j] == name);
        assert(names.contains(name));
        assert(p.stage_at(name) == Some(j));
        if s.dependencies().contains(name) {
            let k = s.dependencies().index_of(name);
            assert(p.dependency_is(i, k, j));
        }
        if p.depends(i, j) {
            let k = choose|k: int| p.dependency_is(i, k, j);
            lemma_first_at(names, s.dependencies()[k]);
            assert(s.dependencies()[k] == name);
            assert(s.dependencies().contains(name));
        }
    }
    if p.ranked_by(rank) {
        assert forall|i: int, j: int|
            0 <= i < p.stages.len() && 0 <= j < p.stages.len() && ((
            #[trigger] p.stages[i]).depends_on.contains((#[trigger] p.stages[j]).name) || (
            p.stages[i].input == p.stages[j].name && p.stages[i].input != "seed"@)) implies rank[j]
            < rank[i] by {
            assert(p.depends(i, j));
        }
    }
    if forall|i: int, j: int|
        0 <= i < p.stages.len() && 0 <= j < p.stages.len() && ((
        #[trigger] p.stages[i]).depends_on.contains((#[trigger] p.stages[j]).name) || (
        p.stages[i].input == p.stages[j].name && p.stages[i].input != "seed"@)) ==> rank[j]
            < rank[i] {
        assert forall|i: int, j: int| #[trigger] p.depends(i, j) implies rank[j] < rank[i] by {
            let k = choose|k: int| p.dependency_is(i, k, j);
            lemma_first_at(names, p.stages[i].dependencies()[k]);
            assert(0 <= j < p.stages.len());
            assert(p.stages[i].depends_on.contains(p.stages[j].name) || (p.stages[i].input
                == p.stages[j].name && p.stages[i].input != "seed"@));
        }
    }
}

/// A stage is found by its name, at the first place where it stands.
pub proof fn law_a_stage_is_found_where_its_name_stands_first(
    p: PipelineView,
    name: Seq<char>,
    i: int,
)
    ensures
        0 <= i < p.stages.len() && p.stages[i].name == name && (forall|j: int|
            0 <= j < i ==> (#[trigger] p.stages[j]).name != name) ==> p.stage_at(name) == Some(i),
        (forall|j: int| 0 <= j < p.stages.len() ==> (#[trigger] p.stages[j]).name != name)
            ==> p.stage_at(name) is None,
{
    lemma_first_at(p.names(), name);
    if let Some(k) = p.stage_at(name) {
        assert(p.names()[k] == p.stages[k].name);
    }
    if 0 <= i < p.stages.len() {
        assert(p.names()[i] == p.stages[i].name);
        if p.stages[i].name == name {
            assert(p.names().contains(name));
        }
    }
}

/// A stage may be written as a list, its parts in order; the retries may be
/// left out.
pub proof fn law_stages_may_be_written_as_lists(
    items: Seq<DocumentView>,
    name: Seq<char>,
    plugin: Seq<char>,
    input: Seq<char>,
    depends_on: Seq<Seq<char>>,
    config: Seq<(Seq<char>, DocumentView)>,
    timeout_secs: i64,
    retries: i64,
)
    requires
        items.len() == 6 || (items.len() > 6 && items[6] == DocumentView::Integer(retries)),
        items[0] == DocumentView::Text(name),
        items[1] == DocumentView::Text(plugin),
        items[2] == DocumentView::Text(input),
        items[3] == DocumentView::Array(depends_on.map_values(|d: Seq<char>| DocumentView::Text(d))),
        items[4] == DocumentView::Table(config),
        items[5] == DocumentView::Integer(timeout_secs),
        table_of(config) is Some,
        timeout_secs >= 0,
        0 <= retries <= u32::MAX,
    ensures
        stage_in(DocumentView::Array(items)) == Some(
            StageView {
                name,
                plugin,
                input,
                depends_on,
                config: table_of(config)->0,
                timeout_secs: Some(timeout_secs as u64),
                retries: if items.len() > 6 {
                    retries as u32
                } else {
                    0
                },
            },
        ),
{
    let listed = depends_on.map_values(|d: Seq<char>| DocumentView::Text(d));
    assert forall|i: int| 0 <= i < listed.len() implies (#[trigger] listed[i]) is Text by {}
    assert(listed.map_values(|t: DocumentView| t->Text_0) == depends_on);
}

/// Dependencies that are no list of texts, and settings that are no table or
/// that cannot be read, describe no stage.
pub proof fn law_stages_need_lists_and_tables(
    entries: Seq<(Seq<char>, DocumentView)>,
    items: Seq<DocumentView>,
    i: int,
)
    requires
        (entry_named(entries, "depends_on"@) == Some(DocumentView::Array(items)) && 0 <= i
            < items.len() && !(items[i] is Text)) || (entry_named(entries, "depends_on"@) matches Some(
            v,
        ) && !(v is Array)) || (entry_named(entries, "config"@) matches Some(v) && !(v is Table))
            || (entry_named(entries, "config"@) matches Some(DocumentView::Table(t)) && table_of(t)
            is None),
    ensures
        stage_in(DocumentView::Table(entries)) is None,
{
    if entry_named(entries, "depends_on"@) == Some(DocumentView::Array(items)) && 0 <= i
        < items.len() && !(items[i] is Text) {
        assert(!(forall|k: int| 0 <= k < items.len() ==> (#[trigger] items[k]) is Text));
    }
}

/// A description that is no text and a limit that is negative or no number
/// describe no pipeline.
pub proof fn law_pipelines_need_texts_and_numbers(entries: Seq<(Seq<char>, DocumentView)>)
    requires
        (entry_named(entries, "description"@) matches Some(v) && !(v is Text)) || (entry_named(
            entries,
            "concurrency"@,
        ) matches Some(v) && match v {
            DocumentView::Integer(n) => n < 0,
            _ => true,
        }),
    ensures
        pipeline_in(DocumentView::Table(entries)) is None,
{
}

/// What is read is the pipeline of the file if nothing is wrong with it; what
/// is wrong with it is reported, and a file of another shape is reported as
/// such.
pub proof fn law_reading_reports_what_is_wrong(doc: DocumentView, complaint: Seq<char>)
    ensures
        file_in(doc) is None ==> accepted(doc, complaint) == Err::<PipelineView, ErrorView>(
            ErrorView::PipelineParse(complaint),
        ),
        file_in(doc) matches Some(p) ==> match p.problem() {
            Some(m) => accepted(doc, complaint) == Err::<PipelineView, ErrorView>(
                ErrorView::InvalidPipeline(m),
            ),
            None => accepted(doc, complaint) == Ok::<PipelineView, ErrorView>(p),
        },
{
}

/// A table that begins with the entry for dates is the date or time that its
/// text is, and cannot be read if it is none; any other table is a table.
pub proof fn law_dates_are_told_from_tables(
    entries: Seq<(Seq<char>, DocumentView)>,
    s: Seq<char>,
    v: DocumentView,
)
    ensures
        datetime_in(s) matches Some(d) ==> DocumentView::Table(
            seq![("$__toml_private_datetime"@, DocumentView::Text(s))] + entries,
        ).value() == Some(TomlView::Datetime(d)),
        datetime_in(s) is None ==> DocumentView::Table(
            seq![("$__toml_private_datetime"@, DocumentView::Text(s))] + entries,
        ).value() is None,
        !(v is Text) ==> DocumentView::Table(
            seq![("$__toml_private_datetime"@, v)] + entries,
        ).value() is None,
        (entries.len() == 0 || entries[0].0 != "$__toml_private_datetime"@) ==> match table_of(
            entries,
        ) {
            Some(t) => DocumentView::Table(entries).value() == Some(TomlView::Table(t)),
            None => DocumentView::Table(entries).value() is None,
        },
{
    assert(DATETIME_KEY@ == "$__toml_private_datetime"@);
    let a = seq![("$__toml_private_datetime"@, DocumentView::Text(s))] + entries;
    let b = seq![("$__toml_private_datetime"@, v)] + entries;
    assert(a[0] == ("$__toml_private_datetime"@, DocumentView::Text(s)));
    assert(b[0] == ("$__toml_private_datetime"@, v));
}

/// A float is finite unless all bits of its exponent are set.
pub proof fn law_floats_are_finite_by_their_exponent(bits: u64)
    ensures
        is_finite(bits) <==> (bits / 0x10_0000_0000_0000) % 0x800 != 0x7FF,
{
    assert((bits % 0x8000_0000_0000_0000 < 0x7FF0_0000_0000_0000) <==> ((bits / 0x10_0000_0000_0000)
        % 0x800 != 0x7FF)) by (bit_vector);
}

/// The complaint about a cycle says at which stage it was noticed.
pub proof fn law_a_cycle_is_complained_about_by_name(name: Seq<char>)
    ensures
        loop_complaint(name) == "dependency cycle detected at stage '"@ + name + "'"@,
{
}

/// A file that is read gives the pipeline that stands in it, if nothing is
/// wrong with it; a text that is no document is reported with what the reader
/// of documents says.
pub proof fn law_a_file_is_read_or_reported(
    text: &str,
    complaint: &str,
    r: Result<PipelineDef, Error>,
)
    requires
        call_ensures(PipelineDef::parse, (text, complaint), r),
    ensures
        toml_document(text@) matches Err(m) ==> r is Err && r->Err_0@ == ErrorView::PipelineParse(
            m,
        ),
        toml_document(text@) matches Ok(doc) ==> match file_in(doc) {
            None => r is Err && r->Err_0@ == ErrorView::PipelineParse(complaint@),
            Some(p) => match p.problem() {
                Some(m) => r is Err && r->Err_0@ == ErrorView::InvalidPipeline(m),
                None => r is Ok && r->Ok_0@ == p,
            },
        },
{
}

/// A pipeline is prepared if and only if nothing is wrong with it, all its
/// plugins are there, and its stages can be ordered.
pub proof fn law_only_sound_pipelines_are_prepared<P: ReconPlugin>(
    engine: &ExecutionEngine<P>,
    pipeline: &PipelineDef,
    r: Result<(), Error>,
)
    requires
        call_ensures(ExecutionEngine::<P>::prepare, (engine, pipeline), r),
    ensures
        r is Ok <==> pipeline@.problem() is None && unknown_plugin(pipeline@, engine.registry@)
            is None && pipeline@.acyclic(),
        r is Err && pipeline@.problem() is None ==> match unknown_plugin(
            pipeline@,
            engine.registry@,
        ) {
            Some(name) => r->Err_0@ == ErrorView::UnknownPlugin(name),
            None => r->Err_0@ is InvalidPipeline,
        },
{
    law_accepted_pipelines_are_valid(pipeline@);
    if r is Err && pipeline@.problem() is None && unknown_plugin(pipeline@, engine.registry@)
        is None {
        assert(!pipeline@.acyclic());
    }
}

/// A cycle is reported by a stage that depends on itself, directly or by way of
/// others.
pub proof fn law_a_cycle_is_reported(pipeline: &PipelineDef, r: Result<(), Error>)
    requires
        call_ensures(assert_acyclic, (pipeline,), r),
    ensures
        r is Ok <==> pipeline@.acyclic(),
        r is Err ==> exists|i: int| #[trigger]
            pipeline@.on_loop(i) && r->Err_0@ == ErrorView::InvalidPipeline(
                "dependency cycle detected at stage '"@ + pipeline@.stages[i].name + "'"@,
            ),
{
}

} // verus!
