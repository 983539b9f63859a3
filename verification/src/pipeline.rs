//! Pipeline definitions: stages, what they wait for, and how they are written
//! down.
use vstd::hash_set::StringHashSet;
use vstd::prelude::*;

use crate::document::{
    lemma_part_models, parse_document, part_models, read_entries, table_of, toml_document,
    Document, DocumentView, TomlTable, TomlView,
};
use crate::error::{Error, ErrorView};
use crate::json::opt_text;
use crate::text::{copy_text, copy_texts, first_some, same_text, texts};

verus! {

/// The special `input` value meaning "use the seed entities the pipeline was
/// invoked with", rather than the output of another stage.
pub const SEED_INPUT: &'static str = "seed";

/// How many stages run at the same time where a pipeline does not say.
pub const DEFAULT_CONCURRENCY: usize = 4;

/// A file that holds one pipeline.
#[derive(Debug)]
pub struct PipelineFile {
    pub pipeline: PipelineDef,
}

#[derive(Debug)]
pub struct PipelineDef {
    pub name: String,
    pub description: Option<String>,
    /// Max number of stages allowed to run concurrently.
    pub concurrency: usize,
    pub stages: Vec<StageDef>,
}

#[derive(Debug)]
pub struct StageDef {
    pub name: String,
    pub plugin: String,
    /// Either `"seed"` or the `name` of a preceding stage whose output
    /// entities are fed in as this stage's input.
    pub input: String,
    /// Extra ordering-only dependencies: stages that must complete before
    /// this one starts, but whose output is not used as input.
    pub depends_on: Vec<String>,
    pub config: TomlTable,
    pub timeout_secs: Option<u64>,
    pub retries: u32,
}

/// The mathematical model of a stage.
pub struct StageView {
    pub name: Seq<char>,
    pub plugin: Seq<char>,
    pub input: Seq<char>,
    pub depends_on: Seq<Seq<char>>,
    pub config: Map<Seq<char>, TomlView>,
    pub timeout_secs: Option<u64>,
    pub retries: u32,
}

/// The mathematical model of a pipeline.
pub struct PipelineView {
    pub name: Seq<char>,
    pub description: Option<Seq<char>>,
    pub concurrency: usize,
    pub stages: Seq<StageView>,
}

impl View for StageDef {
    type V = StageView;

    open spec fn view(&self) -> StageView {
        StageView {
            name: self.name@,
            plugin: self.plugin@,
            input: self.input@,
            depends_on: texts(self.depends_on@),
            config: self.config@,
            timeout_secs: self.timeout_secs,
            retries: self.retries,
        }
    }
}

/// The models of a list of stages.
pub open spec fn stage_views(v: Seq<StageDef>) -> Seq<StageView> {
    v.map_values(|s: StageDef| s@)
}

impl View for PipelineDef {
    type V = PipelineView;

    open spec fn view(&self) -> PipelineView {
        PipelineView {
            name: self.name@,
            description: opt_text(self.description),
            concurrency: self.concurrency,
            stages: stage_views(self.stages@),
        }
    }
}

impl StageView {
    /// All stages this one waits for: its `depends_on` entries and its `input`
    /// stage.
    pub open spec fn dependencies(self) -> Seq<Seq<char>> {
        if self.input != SEED_INPUT@ {
            self.depends_on.push(self.input)
        } else {
            self.depends_on
        }
    }
}

impl PipelineView {
    /// The names of the stages, in order.
    pub open spec fn names(self) -> Seq<Seq<char>> {
        self.stages.map_values(|s: StageView| s.name)
    }

    /// There is a stage, no two stages share a name, and every dependency is
    /// the seed or a stage.
    pub open spec fn valid(self) -> bool {
        &&& self.stages.len() > 0
        &&& self.names().no_duplicates()
        &&& forall|i: int, j: int|
            0 <= i < self.stages.len() && 0 <= j < self.stages[i].dependencies().len()
                ==> self.known(#[trigger] self.stages[i].dependencies()[j])
    }

    /// Whether a dependency is the seed or a stage.
    pub open spec fn known(self, dep: Seq<char>) -> bool {
        dep == SEED_INPUT@ || self.names().contains(dep)
    }

    /// What is wrong with the pipeline, if anything.
    pub open spec fn problem(self) -> Option<Seq<char>> {
        if self.stages.len() == 0 {
            Some("pipeline has no stages"@)
        } else {
            match first_repeat(self.names()) {
                Some(name) => Some("duplicate stage name '"@ + name + "'"@),
                None => first_some(self.stages.map_values(|s: StageView| self.loose_end(s))),
            }
        }
    }

    /// The complaint about the first dependency of a stage that is unknown.
    pub open spec fn loose_end(self, s: StageView) -> Option<Seq<char>> {
        first_some(
            s.dependencies().map_values(
                |dep: Seq<char>|
                    if self.known(dep) {
                        None::<Seq<char>>
                    } else {
                        Some("stage '"@ + s.name + "' depends on unknown stage '"@ + dep + "'"@)
                    },
            ),
        )
    }

    /// The position of the first stage with the given name.
    pub open spec fn stage_at(self, name: Seq<char>) -> Option<int> {
        first_at(self.names(), name)
    }
}

/// The first name that stands a second time.
pub open spec fn first_repeat(names: Seq<Seq<char>>) -> Option<Seq<char>>
    decreases names.len(),
{
    if names.len() == 0 {
        None
    } else {
        match first_repeat(names.drop_last()) {
            Some(name) => Some(name),
            None => if names.drop_last().contains(names.last()) {
                Some(names.last())
            } else {
                None
            },
        }
    }
}

/// The first position of a name.
pub open spec fn first_at(names: Seq<Seq<char>>, name: Seq<char>) -> Option<int>
    decreases names.len(),
{
    if names.len() == 0 {
        None
    } else {
        match first_at(names.drop_last(), name) {
            Some(i) => Some(i),
            None => if names.last() == name {
                Some(names.len() - 1)
            } else {
                None
            },
        }
    }
}

pub proof fn lemma_first_at(names: Seq<Seq<char>>, name: Seq<char>)
    ensures
        match first_at(names, name) {
            Some(i) => 0 <= i < names.len() && names[i] == name && forall|j: int|
                0 <= j < i ==> names[j] != name,
            None => !names.contains(name),
        },
    decreases names.len(),
{
    if names.len() > 0 {
        lemma_first_at(names.drop_last(), name);
        if let Some(i) = first_at(names.drop_last(), name) {
            assert forall|j: int| 0 <= j < i implies names[j] != name by {
                assert(names.drop_last()[j] == names[j]);
            }
        }
        if first_at(names.drop_last(), name) is None {
            assert forall|j: int| 0 <= j < names.len() - 1 implies names[j] != name by {
                assert(names.drop_last()[j] == names[j]);
                assert(names.drop_last().contains(names.drop_last()[j]));
            }
        }
    }
}

proof fn lemma_first_repeat(names: Seq<Seq<char>>)
    ensures
        first_repeat(names) is None <==> names.no_duplicates(),
    decreases names.len(),
{
    if names.len() > 0 {
        let front = names.drop_last();
        lemma_first_repeat(front);
        if names.no_duplicates() {
            assert forall|i: int, j: int| 0 <= i < front.len() && 0 <= j < front.len() && i
                != j implies front[i] != front[j] by {
                assert(names[i] != names[j]);
            }
            if front.contains(names.last()) {
                let i = front.index_of(names.last());
                assert(names[i] == names[names.len() - 1]);
            }
        }
        if first_repeat(names) is None {
            assert forall|i: int, j: int| 0 <= i < names.len() && 0 <= j < names.len() && i
                != j implies names[i] != names[j] by {
                if i < front.len() {
                    assert(front[i] == names[i]);
                    assert(front.contains(front[i]));
                }
                if j < front.len() {
                    assert(front[j] == names[j]);
                    assert(front.contains(front[j]));
                }
            }
        }
    }
}

proof fn lemma_first_some<T>(s: Seq<Option<T>>)
    ensures
        first_some(s) is None <==> forall|i: int| 0 <= i < s.len() ==> (#[trigger] s[i]) is None,
    decreases s.len(),
{
    if s.len() > 0 {
        let front = s.drop_last();
        lemma_first_some(front);
        if first_some(s) is None {
            assert forall|i: int| 0 <= i < s.len() implies (#[trigger] s[i]) is None by {
                if i < front.len() {
                    assert(front[i] == s[i]);
                }
            }
        } else if first_some(front) is Some {
            let i = choose|i: int| 0 <= i < front.len() && (#[trigger] front[i]) is Some;
            assert(s[i] is Some);
        } else {
            assert(s[s.len() - 1] is Some);
        }
    }
}

/// A pipeline is accepted if and only if it has a stage, no two stages share a
/// name, and every dependency is the seed or a stage.
pub proof fn law_accepted_pipelines_are_valid(p: PipelineView)
    ensures
        p.problem() is None <==> p.valid(),
{
    lemma_first_repeat(p.names());
    let ends = p.stages.map_values(|s: StageView| p.loose_end(s));
    lemma_first_some(ends);
    assert forall|i: int| 0 <= i < p.stages.len() implies ((#[trigger] p.loose_end(p.stages[i]))
        is None <==> forall|j: int|
        0 <= j < p.stages[i].dependencies().len() ==> p.known(
            #[trigger] p.stages[i].dependencies()[j],
        )) by {
        let s = p.stages[i];
        let complaint = |dep: Seq<char>|
            if p.known(dep) {
                None::<Seq<char>>
            } else {
                Some("stage '"@ + s.name + "' depends on unknown stage '"@ + dep + "'"@)
            };
        let found = s.dependencies().map_values(complaint);
        lemma_first_some(found);
        assert forall|j: int| 0 <= j < s.dependencies().len() implies ((#[trigger] found[j]) is None
            <==> p.known(s.dependencies()[j])) by {}
        if p.loose_end(s) is None {
            assert forall|j: int| 0 <= j < s.dependencies().len() implies p.known(
                #[trigger] s.dependencies()[j],
            ) by {
                assert(found[j] is None);
            }
        }
    }
    assert forall|i: int| 0 <= i < p.stages.len() implies (#[trigger] ends[i]) == p.loose_end(
        p.stages[i],
    ) by {}
    if p.problem() is None {
        assert forall|i: int, j: int|
            0 <= i < p.stages.len() && 0 <= j < p.stages[i].dependencies().len() implies p.known(
            #[trigger] p.stages[i].dependencies()[j],
        ) by {
            assert(ends[i] is None);
        }
    }
    if p.valid() {
        assert forall|i: int| 0 <= i < ends.len() implies (#[trigger] ends[i]) is None by {
            assert(p.loose_end(p.stages[i]) is None);
        }
    }
}

/// In a valid pipeline a stage is found by its name.
pub proof fn law_stages_are_found_by_name(p: PipelineView, i: int)
    requires
        p.valid(),
        0 <= i < p.stages.len(),
    ensures
        p.stage_at(p.stages[i].name) == Some(i),
{
    let name = p.stages[i].name;
    lemma_first_at(p.names(), name);
    assert(p.names()[i] == name);
    assert(p.names().contains(name));
}

impl Clone for StageDef {
    fn clone(&self) -> (r: Self)
        ensures
            r@ == self@,
    {
        StageDef {
            name: self.name.clone(),
            plugin: self.plugin.clone(),
            input: self.input.clone(),
            depends_on: copy_texts(&self.depends_on),
            config: self.config.clone(),
            timeout_secs: self.timeout_secs,
            retries: self.retries,
        }
    }
}

impl Clone for PipelineDef {
    fn clone(&self) -> (r: Self)
        ensures
            r@ == self@,
    {
        let mut stages: Vec<StageDef> = Vec::new();
        let mut i: usize = 0;
        while i < self.stages.len()
            invariant
                i <= self.stages.len(),
                stages@.len() == i,
                forall|k: int| 0 <= k < i ==> (#[trigger] stages@[k])@ == self.stages@[k]@,
            decreases self.stages.len() - i,
        {
            stages.push(self.stages[i].clone());
            i += 1;
        }
        assert(stage_views(stages@) == stage_views(self.stages@));
        PipelineDef {
            name: self.name.clone(),
            description: match &self.description {
                Some(s) => Some(s.clone()),
                None => None,
            },
            concurrency: self.concurrency,
            stages,
        }
    }
}

impl Clone for PipelineFile {
    fn clone(&self) -> (r: Self)
        ensures
            r.pipeline@ == self.pipeline@,
    {
        PipelineFile { pipeline: self.pipeline.clone() }
    }
}

impl StageDef {
    /// All stages this one must wait for: its `input` stage (if not the seed)
    /// plus any explicit `depends_on` entries.
    pub fn dependencies(&self) -> (r: Vec<&str>)
        ensures
            r@.map_values(|s: &str| s@) == self@.dependencies(),
    {
        let mut deps: Vec<&str> = Vec::new();
        let mut i: usize = 0;
        while i < self.depends_on.len()
            invariant
                i <= self.depends_on.len(),
                deps@.len() == i,
                forall|k: int| 0 <= k < i ==> (#[trigger] deps@[k])@ == self.depends_on@[k]@,
            decreases self.depends_on.len() - i,
        {
            deps.push(self.depends_on[i].as_str());
            i += 1;
        }
        if !same_text(self.input.as_str(), SEED_INPUT) {
            deps.push(self.input.as_str());
        }
        assert(deps@.map_values(|s: &str| s@) == self@.dependencies());
        deps
    }
}

impl PipelineDef {
    /// Reads a pipeline from the text of a file. `complaint` is what a reader of
    /// typed documents has to say of a document of another shape than a
    /// pipeline's; of any other text it is not looked at.
    pub fn parse(toml_str: &str, complaint: &str) -> (r: Result<Self, Error>)
        ensures
            outcome(r) == match toml_document(toml_str@) {
                Ok(doc) => accepted(doc, complaint@),
                Err(m) => Err(ErrorView::PipelineParse(m)),
            },
    {
        match parse_document(toml_str) {
            Ok(doc) => Self::from_document(&doc, complaint),
            Err(m) => Err(Error::PipelineParse(m)),
        }
    }

    /// Reads a pipeline from a document. `complaint` is what is said of one of
    /// another shape.
    pub fn from_document(doc: &Document, complaint: &str) -> (r: Result<Self, Error>)
        ensures
            outcome(r) == accepted(doc@, complaint@),
    {
        let file = match PipelineFile::from_document(doc) {
            Some(file) => file,
            None => return Err(Error::PipelineParse(copy_text(complaint))),
        };
        match file.pipeline.validate() {
            Ok(()) => Ok(file.pipeline),
            Err(e) => Err(e),
        }
    }

    pub fn stage(&self, name: &str) -> (r: Option<&StageDef>)
        ensures
            match r {
                Some(s) => self@.stage_at(name@) matches Some(i) && s@ == self@.stages[i],
                None => self@.stage_at(name@) is None,
            },
    {
        match self.position(name) {
            Some(i) => Some(&self.stages[i]),
            None => None,
        }
    }

    /// The position of the stage with the given name.
    pub fn position(&self, name: &str) -> (r: Option<usize>)
        ensures
            match r {
                Some(i) => self@.stage_at(name@) == Some(i as int) && i < self@.stages.len(),
                None => self@.stage_at(name@) is None,
            },
    {
        let ghost names = self@.names();
        let mut i: usize = 0;
        while i < self.stages.len()
            invariant
                i <= self.stages.len(),
                names == self@.names(),
                forall|j: int| 0 <= j < i ==> names[j] != name@,
            decreases self.stages.len() - i,
        {
            assert(names[i as int] == self.stages@[i as int].name@);
            if same_text(self.stages[i].name.as_str(), name) {
                proof {
                    lemma_first_at(names, name@);
                    assert(names.contains(names[i as int]));
                }
                return Some(i);
            }
            i += 1;
        }
        proof {
            lemma_first_at(names, name@);
        }
        None
    }

    /// Structural validation that doesn't require a plugin registry: unique
    /// stage names, and every referenced dependency resolves to either "seed"
    /// or a real stage.
    pub fn validate(&self) -> (r: Result<(), Error>)
        ensures
            match r {
                Ok(()) => self@.problem() is None,
                Err(e) => self@.problem() matches Some(m) && e@ == ErrorView::InvalidPipeline(m),
            },
    {
        let ghost p = self@;
        let ghost names = p.names();
        if self.stages.len() == 0 {
            return Err(Error::InvalidPipeline(copy_text("pipeline has no stages")));
        }
        let mut seen = StringHashSet::new();
        let mut i: usize = 0;
        assert(first_repeat(names.take(0)) is None);
        while i < self.stages.len()
            invariant
                i <= self.stages.len(),
                p == self@,
                names == p.names(),
                p.stages.len() > 0,
                first_repeat(names.take(i as int)) is None,
                forall|n: Seq<char>| #[trigger]
                    seen@.contains(n) <==> names.take(i as int).contains(n),
            decreases self.stages.len() - i,
        {
            let name = &self.stages[i].name;
            proof {
                assert(names.take(i + 1).drop_last() == names.take(i as int));
                assert(names.take(i + 1).last() == name@);
            }
            if !seen.insert(name.clone()) {
                proof {
                    assert(names.take(i as int).contains(name@));
                    assert(first_repeat(names.take(i + 1)) == Some(name@));
                    lemma_repeat_in_prefix(names, i + 1);
                }
                let mut m = copy_text("duplicate stage name '");
                m.append(name.as_str());
                m.append("'");
                return Err(Error::InvalidPipeline(m));
            }
            proof {
                assert forall|n: Seq<char>| #[trigger]
                    seen@.contains(n) <==> names.take(i + 1).contains(n) by {
                    assert(names.take(i + 1) == names.take(i as int).push(name@));
                    if names.take(i as int).contains(n) {
                        let k = names.take(i as int).index_of(n);
                        assert(names.take(i + 1)[k] == n);
                    }
                    if n == name@ {
                        assert(names.take(i + 1)[i as int] == n);
                    }
                }
            }
            i += 1;
        }
        assert(names.take(i as int) == names);
        let ghost ends = p.stages.map_values(|s: StageView| p.loose_end(s));
        let mut k: usize = 0;
        assert(first_some(ends.take(0)) is None);
        while k < self.stages.len()
            invariant
                k <= self.stages.len(),
                p == self@,
                names == p.names(),
                p.stages.len() > 0,
                first_repeat(names) is None,
                ends == p.stages.map_values(|s: StageView| p.loose_end(s)),
                first_some(ends.take(k as int)) is None,
                forall|n: Seq<char>| #[trigger] seen@.contains(n) <==> names.contains(n),
            decreases self.stages.len() - k,
        {
            let stage = &self.stages[k];
            let ghost s = stage@;
            let deps = stage.dependencies();
            let ghost dep_texts = deps@.map_values(|s: &str| s@);
            let ghost complaint = |dep: Seq<char>|
                if p.known(dep) {
                    None::<Seq<char>>
                } else {
                    Some("stage '"@ + s.name + "' depends on unknown stage '"@ + dep + "'"@)
                };
            let ghost found = s.dependencies().map_values(complaint);
            proof {
                assert(s == p.stages[k as int]);
                assert(ends.take(k + 1).drop_last() == ends.take(k as int));
                assert(ends.take(k + 1).last() == p.loose_end(s));
                assert(first_some(found.take(0)) is None);
            }
            let mut d: usize = 0;
            while d < deps.len()
                invariant
                    d <= deps.len(),
                    k < self.stages.len(),
                    p == self@,
                    names == p.names(),
                    p.stages.len() > 0,
                    first_repeat(names) is None,
                    s == stage@,
                    dep_texts == deps@.map_values(|s: &str| s@),
                    dep_texts == s.dependencies(),
                    complaint == (|dep: Seq<char>|
                        if p.known(dep) {
                            None::<Seq<char>>
                        } else {
                            Some("stage '"@ + s.name + "' depends on unknown stage '"@ + dep + "'"@)
                        }),
                    found == s.dependencies().map_values(complaint),
                    ends == p.stages.map_values(|s: StageView| p.loose_end(s)),
                    first_some(ends.take(k as int)) is None,
                    ends.take(k + 1).drop_last() == ends.take(k as int),
                    ends.take(k + 1).last() == p.loose_end(s),
                    first_some(found.take(d as int)) is None,
                    forall|n: Seq<char>| #[trigger] seen@.contains(n) <==> names.contains(n),
                decreases deps.len() - d,
            {
                let dep = deps[d];
                proof {
                    assert(dep_texts[d as int] == dep@);
                    assert(found.take(d + 1).drop_last() == found.take(d as int));
                    assert(found.take(d + 1).last() == complaint(dep@));
                }
                if !same_text(dep, SEED_INPUT) && !seen.contains(dep) {
                    proof {
                        assert(first_some(found.take(d + 1)) == complaint(dep@));
                        lemma_some_in_prefix(found, d + 1);
                        assert(p.loose_end(s) == first_some(found));
                        assert(first_some(ends.take(k + 1)) == p.loose_end(s));
                        lemma_some_in_prefix(ends, k + 1);
                    }
                    let mut m = copy_text("stage '");
                    m.append(stage.name.as_str());
                    m.append("' depends on unknown stage '");
                    m.append(dep);
                    m.append("'");
                    return Err(Error::InvalidPipeline(m));
                }
                d += 1;
            }
            proof {
                assert(found.take(d as int) == found);
                assert(p.loose_end(s) == first_some(found));
            }
            k += 1;
        }
        assert(ends.take(k as int) == ends);
        Ok(())
    }
}

proof fn lemma_repeat_in_prefix(names: Seq<Seq<char>>, n: int)
    requires
        0 <= n <= names.len(),
        first_repeat(names.take(n)) is Some,
    ensures
        first_repeat(names) == first_repeat(names.take(n)),
    decreases names.len(),
{
    if n == names.len() {
        assert(names.take(n) == names);
    } else {
        assert(names.drop_last().take(n) == names.take(n));
        lemma_repeat_in_prefix(names.drop_last(), n);
    }
}

pub proof fn lemma_some_in_prefix<T>(s: Seq<Option<T>>, n: int)
    requires
        0 <= n <= s.len(),
        first_some(s.take(n)) is Some,
    ensures
        first_some(s) == first_some(s.take(n)),
    decreases s.len(),
{
    if n == s.len() {
        assert(s.take(n) == s);
    } else {
        assert(s.drop_last().take(n) == s.take(n));
        lemma_some_in_prefix(s.drop_last(), n);
    }
}

/// What reading a pipeline came to.
pub open spec fn outcome(r: Result<PipelineDef, Error>) -> Result<PipelineView, ErrorView> {
    match r {
        Ok(p) => Ok(p@),
        Err(e) => Err(e@),
    }
}

/// What reading a pipeline from a document comes to, where `complaint` is what
/// is said of a document of another shape.
pub open spec fn accepted(doc: DocumentView, complaint: Seq<char>) -> Result<
    PipelineView,
    ErrorView,
> {
    match file_in(doc) {
        None => Err(ErrorView::PipelineParse(complaint)),
        Some(p) => match p.problem() {
            Some(m) => Err(ErrorView::InvalidPipeline(m)),
            None => Ok(p),
        },
    }
}

/// A pipeline that was read is valid.
pub proof fn law_read_pipelines_are_valid(doc: DocumentView, complaint: Seq<char>)
    requires
        accepted(doc, complaint) is Ok,
    ensures
        accepted(doc, complaint)->Ok_0.valid(),
{
    law_accepted_pipelines_are_valid(accepted(doc, complaint)->Ok_0);
}

/// A field that must hold text.
pub open spec fn text_in(v: DocumentView, position: int, key: Seq<char>) -> Option<Seq<char>> {
    match v.field(position, key) {
        Some(DocumentView::Text(s)) => Some(s),
        _ => None,
    }
}

/// A field that may hold text.
pub open spec fn optional_text_in(v: DocumentView, position: int, key: Seq<char>) -> Option<
    Option<Seq<char>>,
> {
    match v.field(position, key) {
        None => Some(None),
        Some(DocumentView::Text(s)) => Some(Some(s)),
        Some(_) => None,
    }
}

/// A field that may hold a number between zero and `max`.
pub open spec fn number_in(v: DocumentView, position: int, key: Seq<char>, max: u64) -> Option<
    Option<u64>,
> {
    match v.field(position, key) {
        None => Some(None),
        Some(DocumentView::Integer(n)) if 0 <= n <= max => Some(Some(n as u64)),
        Some(_) => None,
    }
}

/// A field that may hold a list of texts.
pub open spec fn texts_in(v: DocumentView, position: int, key: Seq<char>) -> Option<
    Seq<Seq<char>>,
> {
    match v.field(position, key) {
        None => Some(Seq::empty()),
        Some(DocumentView::Array(items)) => if forall|i: int|
            0 <= i < items.len() ==> (#[trigger] items[i]) is Text {
            Some(items.map_values(|t: DocumentView| t->Text_0))
        } else {
            None
        },
        Some(_) => None,
    }
}

/// A field that may hold a table.
pub open spec fn table_in(v: DocumentView, position: int, key: Seq<char>) -> Option<
    Map<Seq<char>, TomlView>,
> {
    match v.field(position, key) {
        None => Some(Map::empty()),
        Some(DocumentView::Table(entries)) => table_of(entries),
        Some(_) => None,
    }
}

/// The stage that a value describes. Written as an array, its fields stand in
/// order, and the timeout cannot be left out.
pub open spec fn stage_in(v: DocumentView) -> Option<StageView> {
    match (
        text_in(v, 0, "name"@),
        text_in(v, 1, "plugin"@),
        text_in(v, 2, "input"@),
        texts_in(v, 3, "depends_on"@),
        table_in(v, 4, "config"@),
        number_in(v, 5, "timeout_secs"@, u64::MAX),
        number_in(v, 6, "retries"@, u32::MAX as u64),
    ) {
        (
            Some(name),
            Some(plugin),
            Some(input),
            Some(depends_on),
            Some(config),
            Some(timeout_secs),
            Some(retries),
        ) => if !(v is Array && timeout_secs is None) {
            Some(
                StageView {
                    name,
                    plugin,
                    input,
                    depends_on,
                    config,
                    timeout_secs,
                    retries: match retries {
                        Some(n) => n as u32,
                        None => 0,
                    },
                },
            )
        } else {
            None
        },
        _ => None,
    }
}

/// The stages that the items of an array describe.
pub open spec fn stages_in(items: Seq<DocumentView>) -> Option<Seq<StageView>>
    decreases items.len(),
{
    if items.len() == 0 {
        Some(Seq::empty())
    } else {
        match (stages_in(items.drop_last()), stage_in(items.last())) {
            (Some(front), Some(s)) => Some(front.push(s)),
            _ => None,
        }
    }
}

/// The pipeline that a value describes.
pub open spec fn pipeline_in(v: DocumentView) -> Option<PipelineView> {
    match (
        text_in(v, 0, "name"@),
        optional_text_in(v, 1, "description"@),
        number_in(v, 2, "concurrency"@, usize::MAX as u64),
        v.field(3, "stages"@),
    ) {
        (
            Some(name),
            Some(description),
            Some(concurrency),
            Some(DocumentView::Array(items)),
        ) => match stages_in(items) {
            Some(stages) => Some(
                PipelineView {
                    name,
                    description,
                    concurrency: match concurrency {
                        Some(n) => n as usize,
                        None => DEFAULT_CONCURRENCY,
                    },
                    stages,
                },
            ),
            None => None,
        },
        _ => None,
    }
}

/// The pipeline of a file.
pub open spec fn file_in(doc: DocumentView) -> Option<PipelineView> {
    match doc.field(0, "pipeline"@) {
        None => None,
        Some(v) => pipeline_in(v),
    }
}

fn read_text(v: &Document, position: usize, key: &str) -> (r: Option<String>)
    ensures
        opt_text(r) == text_in(v@, position as int, key@),
{
    match v.field(position, key) {
        Some(Document::Text(s)) => Some(s.clone()),
        _ => None,
    }
}

fn read_optional_text(v: &Document, position: usize, key: &str) -> (r: Option<Option<String>>)
    ensures
        match r {
            Some(s) => optional_text_in(v@, position as int, key@) == Some(opt_text(s)),
            None => optional_text_in(v@, position as int, key@) is None,
        },
{
    match v.field(position, key) {
        None => Some(None),
        Some(Document::Text(s)) => Some(Some(s.clone())),
        Some(_) => None,
    }
}

fn read_number(v: &Document, position: usize, key: &str, max: u64) -> (r: Option<Option<u64>>)
    ensures
        r == number_in(v@, position as int, key@, max),
        r matches Some(Some(n)) ==> n <= max,
{
    match v.field(position, key) {
        None => Some(None),
        Some(Document::Integer(n)) => {
            if *n >= 0 && *n as u64 <= max {
                Some(Some(*n as u64))
            } else {
                None
            }
        },
        Some(_) => None,
    }
}

fn read_texts(v: &Document, position: usize, key: &str) -> (r: Option<Vec<String>>)
    ensures
        match r {
            Some(s) => texts_in(v@, position as int, key@) == Some(texts(s@)),
            None => texts_in(v@, position as int, key@) is None,
        },
{
    match v.field(position, key) {
        None => {
            let none: Vec<String> = Vec::new();
            assert(texts(none@) == Seq::<Seq<char>>::empty());
            Some(none)
        },
        Some(Document::Array(items)) => {
            let ghost views = part_models(items@);
            proof {
                lemma_part_models(items@);
            }
            let mut found: Vec<String> = Vec::new();
            let mut i: usize = 0;
            while i < items.len()
                invariant
                    i <= items.len(),
                    views == part_models(items@),
                    views.len() == items.len(),
                    forall|k: int| 0 <= k < items.len() ==> views[k] == (#[trigger] items@[k]).model(),
                    v@.field(position as int, key@) == Some(DocumentView::Array(views)),
                    found@.len() == i,
                    forall|k: int|
                        0 <= k < i ==> (#[trigger] views[k]) == DocumentView::Text(found@[k]@),
                decreases items.len() - i,
            {
                match &items[i] {
                    Document::Text(s) => {
                        assert(views[i as int] == items@[i as int].model());
                        found.push(s.clone());
                    },
                    _ => {
                        assert(!(views[i as int] is Text)) by {
                            assert(views[i as int] == items@[i as int].model());
                        }
                        return None;
                    },
                }
                i += 1;
            }
            assert forall|k: int| 0 <= k < views.len() implies (#[trigger] views[k]) is Text by {}
            assert(views.map_values(|t: DocumentView| t->Text_0) == texts(found@));
            Some(found)
        },
        Some(_) => None,
    }
}

fn read_table(v: &Document, position: usize, key: &str) -> (r: Option<TomlTable>)
    ensures
        match r {
            Some(t) => table_in(v@, position as int, key@) == Some(t@),
            None => table_in(v@, position as int, key@) is None,
        },
{
    match v.field(position, key) {
        None => Some(TomlTable { entries: Vec::new() }),
        Some(Document::Table(entries)) => match read_entries(entries) {
            Some(values) => Some(TomlTable { entries: values }),
            None => None,
        },
        Some(_) => None,
    }
}

impl StageDef {
    /// Reads a stage from a value of a document, if it describes one.
    pub fn from_document(v: &Document) -> (r: Option<StageDef>)
        ensures
            match r {
                Some(s) => stage_in(v@) == Some(s@),
                None => stage_in(v@) is None,
            },
    {
        let name = read_text(v, 0, "name")?;
        let plugin = read_text(v, 1, "plugin")?;
        let input = read_text(v, 2, "input")?;
        let depends_on = read_texts(v, 3, "depends_on")?;
        let config = read_table(v, 4, "config")?;
        let timeout_secs = read_number(v, 5, "timeout_secs", u64::MAX)?;
        if let (Document::Array(_), None) = (v, timeout_secs) {
            return None;
        }
        let retries: u32 = match read_number(v, 6, "retries", u32::MAX as u64)? {
            Some(n) => n as u32,
            None => 0,
        };
        Some(StageDef { name, plugin, input, depends_on, config, timeout_secs, retries })
    }
}

impl PipelineFile {
    /// Reads the pipeline of a file from its document, if it describes one.
    pub fn from_document(doc: &Document) -> (r: Option<PipelineFile>)
        ensures
            match r {
                Some(f) => file_in(doc@) == Some(f.pipeline@),
                None => file_in(doc@) is None,
            },
    {
        let v = doc.field(0, "pipeline")?;
        let name = read_text(v, 0, "name")?;
        let description = read_optional_text(v, 1, "description")?;
        let concurrency: usize = match read_number(v, 2, "concurrency", usize::MAX as u64)? {
            Some(n) => n as usize,
            None => DEFAULT_CONCURRENCY,
        };
        let items = match v.field(3, "stages")? {
            Document::Array(items) => items,
            _ => return None,
        };
        let stages = read_stages(items)?;
        Some(PipelineFile { pipeline: PipelineDef { name, description, concurrency, stages } })
    }
}

proof fn lemma_no_stages(items: Seq<DocumentView>, n: int)
    requires
        0 <= n <= items.len(),
        stages_in(items.take(n)) is None,
    ensures
        stages_in(items) is None,
    decreases items.len(),
{
    if n == items.len() {
        assert(items.take(n) == items);
    } else {
        assert(items.drop_last().take(n) == items.take(n));
        lemma_no_stages(items.drop_last(), n);
    }
}

fn read_stages(items: &Vec<Document>) -> (r: Option<Vec<StageDef>>)
    ensures
        match r {
            Some(s) => stages_in(part_models(items@)) == Some(stage_views(s@)),
            None => stages_in(part_models(items@)) is None,
        },
{
    let ghost views = part_models(items@);
    proof {
        lemma_part_models(items@);
    }
    let mut stages: Vec<StageDef> = Vec::new();
    let mut i: usize = 0;
    assert(stage_views(stages@) == Seq::<StageView>::empty());
    while i < items.len()
        invariant
            i <= items.len(),
            views == part_models(items@),
            views.len() == items.len(),
            forall|k: int| 0 <= k < items.len() ==> views[k] == (#[trigger] items@[k]).model(),
            stages_in(views.take(i as int)) == Some(stage_views(stages@)),
        decreases items.len() - i,
    {
        proof {
            assert(views.take(i + 1).drop_last() == views.take(i as int));
            assert(views.take(i + 1).last() == items@[i as int].model());
        }
        match StageDef::from_document(&items[i]) {
            Some(s) => {
                let ghost before = stages@;
                stages.push(s);
                assert(stage_views(stages@) == stage_views(before).push(s@));
            },
            None => {
                proof {
                    assert(stages_in(views.take(i + 1)) is None);
                    lemma_no_stages(views, i + 1);
                }
                return None;
            },
        }
        i += 1;
    }
    assert(views.take(i as int) == views);
    Some(stages)
}

} // verus!
