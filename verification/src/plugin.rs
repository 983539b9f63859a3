//! Plugins: what they are asked for, and the table they are found in.
use vstd::prelude::*;

use crate::document::{table_in_json, to_json, Toml, TomlTable, TomlView};
use crate::entity::EntityType;
use crate::error::{Error, ErrorView};
use crate::json::{item_models, Json, JsonView};
use crate::pipeline::{first_at, lemma_first_at};
use crate::text::{copy_text, same_text};

verus! {

/// Tool-specific arguments for a single stage, taken from the pipeline's
/// `config` table and shown in JSON.
#[derive(Debug)]
pub struct PluginConfig(pub Json);

impl View for PluginConfig {
    type V = JsonView;

    open spec fn view(&self) -> JsonView {
        self.0@
    }
}

impl Default for PluginConfig {
    fn default() -> (r: Self)
        ensures
            r@ == JsonView::Null,
    {
        PluginConfig(Json::Null)
    }
}

impl Clone for PluginConfig {
    fn clone(&self) -> (r: Self)
        ensures
            r@ == self@,
    {
        PluginConfig(self.0.copy())
    }
}

impl JsonView {
    /// A member that is a string.
    pub open spec fn text_member(self, key: Seq<char>) -> Option<Seq<char>> {
        match self.member(key) {
            Some(JsonView::Text(s)) => Some(s),
            _ => None,
        }
    }

    /// A member that is true or false.
    pub open spec fn bool_member(self, key: Seq<char>) -> Option<bool> {
        match self.member(key) {
            Some(JsonView::Bool(b)) => Some(b),
            _ => None,
        }
    }

    /// A member that is an integer and not negative.
    pub open spec fn number_member(self, key: Seq<char>) -> Option<u64> {
        match self.member(key) {
            Some(JsonView::PosInt(n)) => Some(n),
            _ => None,
        }
    }

    /// A member that is an array.
    pub open spec fn array_member(self, key: Seq<char>) -> Option<Seq<JsonView>> {
        match self.member(key) {
            Some(JsonView::Array(items)) => Some(items),
            _ => None,
        }
    }
}

impl PluginConfig {
    pub fn from_toml_table(table: TomlTable) -> (r: Self)
        ensures
            r@ == JsonView::Object(table_in_json(table@)),
    {
        let v = Toml::Table(table.entries);
        proof {
            crate::document::lemma_table_in_json(table@);
        }
        PluginConfig(to_json(&v))
    }

    pub fn get(&self, key: &str) -> (r: Option<&Json>)
        ensures
            match r {
                Some(v) => self@.member(key@) == Some(v@),
                None => self@.member(key@) is None,
            },
    {
        self.0.get(key)
    }

    pub fn get_str(&self, key: &str) -> (r: Option<&str>)
        ensures
            match r {
                Some(s) => self@.text_member(key@) == Some(s@),
                None => self@.text_member(key@) is None,
            },
    {
        match self.get(key) {
            Some(v) => v.as_str(),
            None => None,
        }
    }

    pub fn get_bool(&self, key: &str) -> (r: Option<bool>)
        ensures
            r == self@.bool_member(key@),
    {
        match self.get(key) {
            Some(v) => v.as_bool(),
            None => None,
        }
    }

    pub fn get_u64(&self, key: &str) -> (r: Option<u64>)
        ensures
            r == self@.number_member(key@),
    {
        match self.get(key) {
            Some(v) => v.as_u64(),
            None => None,
        }
    }

    pub fn get_array(&self, key: &str) -> (r: Option<&Vec<Json>>)
        ensures
            match r {
                Some(items) => self@.array_member(key@) == Some(item_models(items@)),
                None => self@.array_member(key@) is None,
            },
    {
        match self.get(key) {
            Some(v) => v.as_array(),
            None => None,
        }
    }
}

/// Implemented by every recon tool wrapper (subfinder, dnsx, httpx, ...).
/// Plugins are compiled in and registered by name at startup; there is no
/// dynamic loading.
///
/// The specification functions are what a plugin says of itself; each plugin
/// gives its own.
pub trait ReconPlugin {
    /// The name of the plugin.
    open spec fn name_text(&self) -> Seq<char> {
        Seq::empty()
    }

    /// The binary that the plugin needs.
    open spec fn binary_text(&self) -> Seq<char> {
        Seq::empty()
    }

    /// The kinds of entities that the plugin accepts.
    open spec fn inputs(&self) -> Seq<EntityType> {
        Seq::empty()
    }

    /// The kinds of entities that the plugin produces.
    open spec fn outputs(&self) -> Seq<EntityType> {
        Seq::empty()
    }

    /// Whether the plugin works without a binary.
    open spec fn native(&self) -> bool {
        false
    }

    /// Stable identifier used in pipeline `plugin = "..."` fields.
    fn name(&self) -> (r: &str)
        ensures
            r@ == self.name_text(),
    ;

    /// The external CLI binary this plugin shells out to, e.g. "subfinder".
    fn required_binary(&self) -> (r: &str)
        ensures
            r@ == self.binary_text(),
    ;

    fn input_types(&self) -> (r: Vec<EntityType>)
        ensures
            r@ == self.inputs(),
    ;

    fn output_types(&self) -> (r: Vec<EntityType>)
        ensures
            r@ == self.outputs(),
    ;

    /// Whether the plugin can run, given whether its binary was found on PATH.
    fn is_available(&self, found_on_path: bool) -> (r: bool)
        ensures
            r == (self.native() || found_on_path),
    ;
}

/// The names of a list of plugins.
pub open spec fn plugin_names<P: ReconPlugin>(plugins: Seq<P>) -> Seq<Seq<char>> {
    plugins.map_values(|p: P| p.name_text())
}

/// The position of the plugin with the given name.
pub open spec fn plugin_at<P: ReconPlugin>(plugins: Seq<P>, name: Seq<char>) -> Option<int> {
    first_at(plugin_names(plugins), name)
}

/// The table with one more plugin, which takes the place of one with the same
/// name.
pub open spec fn registered<P: ReconPlugin>(plugins: Seq<P>, plugin: P) -> Seq<P> {
    match plugin_at(plugins, plugin.name_text()) {
        Some(i) => plugins.update(i, plugin),
        None => plugins.push(plugin),
    }
}

/// Compiled-in lookup table of every available plugin, keyed by name.
pub struct PluginRegistry<P> {
    plugins: Vec<P>,
}

impl<P> View for PluginRegistry<P> {
    type V = Seq<P>;

    closed spec fn view(&self) -> Seq<P> {
        self.plugins@
    }
}

impl<P: ReconPlugin> Default for PluginRegistry<P> {
    fn default() -> (r: Self)
        ensures
            r@ == Seq::<P>::empty(),
    {
        Self::new()
    }
}

impl<P: ReconPlugin> PluginRegistry<P> {
    pub fn new() -> (r: Self)
        ensures
            r@ == Seq::<P>::empty(),
    {
        PluginRegistry { plugins: Vec::new() }
    }

    fn position(&self, name: &str) -> (r: Option<usize>)
        ensures
            match r {
                Some(i) => plugin_at(self@, name@) == Some(i as int) && i < self@.len(),
                None => plugin_at(self@, name@) is None,
            },
    {
        let ghost names = plugin_names(self@);
        let mut i: usize = 0;
        while i < self.plugins.len()
            invariant
                i <= self.plugins.len(),
                names == plugin_names(self@),
                forall|j: int| 0 <= j < i ==> names[j] != name@,
            decreases self.plugins.len() - i,
        {
            assert(names[i as int] == self.plugins@[i as int].name_text());
            if same_text(self.plugins[i].name(), name) {
                proof {
                    lemma_first_at(names, name@);
                    assert(names.contains(names[i as int]));
                }
                return Some(i);
            }
            i += 1;
        }
        proof {
            lemma_first_at(names, name@);
        }
        None
    }

    pub fn register(&mut self, plugin: P)
        ensures
            final(self)@ == registered(old(self)@, plugin),
    {
        let at = self.position(plugin.name());
        match at {
            Some(i) => {
                self.plugins.set(i, plugin);
            },
            None => {
                self.plugins.push(plugin);
            },
        }
    }

    pub fn get(&self, name: &str) -> (r: Result<&P, Error>)
        ensures
            match r {
                Ok(p) => plugin_at(self@, name@) matches Some(i) && *p == self@[i],
                Err(e) => plugin_at(self@, name@) is None && e@ == ErrorView::UnknownPlugin(name@),
            },
    {
        match self.position(name) {
            Some(i) => Ok(&self.plugins[i]),
            None => Err(Error::UnknownPlugin(copy_text(name))),
        }
    }

    pub fn contains(&self, name: &str) -> (r: bool)
        ensures
            r == (plugin_at(self@, name@) is Some),
    {
        match self.position(name) {
            Some(_) => true,
            None => false,
        }
    }

    /// Every plugin, in the order of registration.
    pub fn iter(&self) -> (r: Vec<&P>)
        ensures
            r@.map_values(|p: &P| *p) == self@,
    {
        let mut r: Vec<&P> = Vec::new();
        let mut i: usize = 0;
        while i < self.plugins.len()
            invariant
                i <= self.plugins.len(),
                r@.len() == i,
                forall|k: int| 0 <= k < i ==> *(#[trigger] r@[k]) == self@[k],
            decreases self.plugins.len() - i,
        {
            r.push(&self.plugins[i]);
            i += 1;
        }
        assert(r@.map_values(|p: &P| *p) == self@);
        r
    }
}

/// A plugin sees every setting of its stage under its own name, and no other.
pub proof fn law_settings_are_seen_by_name(table: Map<Seq<char>, TomlView>, key: Seq<char>)
    ensures
        JsonView::Object(table_in_json(table)).member(key) == if table.contains_key(key) {
            Some(table[key].in_json())
        } else {
            None
        },
{
}

/// A plugin that was registered is found under its name, and the plugins with
/// other names stay.
pub proof fn law_registered_plugin_is_found<P: ReconPlugin>(
    plugins: Seq<P>,
    plugin: P,
    name: Seq<char>,
)
    ensures
        name == plugin.name_text() ==> (plugin_at(registered(plugins, plugin), name) matches Some(i)
            && registered(plugins, plugin)[i] == plugin),
        name != plugin.name_text() ==> plugin_at(registered(plugins, plugin), name) == plugin_at(
            plugins,
            name,
        ),
        name != plugin.name_text() ==> (plugin_at(plugins, name) matches Some(i) ==> registered(
            plugins,
            plugin,
        )[i] == plugins[i]),
{
    let names = plugin_names(plugins);
    let after = plugin_names(registered(plugins, plugin));
    lemma_first_at(names, plugin.name_text());
    lemma_first_at(names, name);
    lemma_first_at(after, name);
    match plugin_at(plugins, plugin.name_text()) {
        Some(i) => {
            assert(after == names);
        },
        None => {
            assert(after == names.push(plugin.name_text()));
            assert(after.drop_last() == names);
        },
    }
}

/// Registering plugins never makes two plugins share a name.
pub proof fn law_names_stay_unique<P: ReconPlugin>(plugins: Seq<P>, plugin: P)
    requires
        plugin_names(plugins).no_duplicates(),
    ensures
        plugin_names(registered(plugins, plugin)).no_duplicates(),
{
    let names = plugin_names(plugins);
    let after = plugin_names(registered(plugins, plugin));
    lemma_first_at(names, plugin.name_text());
    match plugin_at(plugins, plugin.name_text()) {
        Some(i) => {
            assert(after == names);
        },
        None => {
            assert(after == names.push(plugin.name_text()));
            assert forall|i: int, j: int| 0 <= i < after.len() && 0 <= j < after.len() && i
                != j implies after[i] != after[j] by {
                if i < names.len() {
                    assert(names.contains(names[i]));
                }
                if j < names.len() {
                    assert(names.contains(names[j]));
                }
            }
        },
    }
}

} // verus!
