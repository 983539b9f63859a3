//! Running a pipeline: which stage starts when, what it is given, and what
//! becomes of its result. The work of the plugins themselves is done by the
//! caller, step by step as it is told.
use vstd::prelude::*;

use crate::entity::{copy_entities, entity_views, Entity, EntityView};
use crate::error::{Error, ErrorView};
use crate::graph::EntityGraph;
use crate::graph_model::{
    empty_graph, law_added_entity_is_found, lemma_place_of, place_of, GraphModel,
};
use crate::order::{assert_acyclic, loop_complaint};
use crate::pipeline::{
    law_accepted_pipelines_are_valid, lemma_first_at, lemma_some_in_prefix, PipelineDef,
    PipelineView, StageDef, StageView, SEED_INPUT,
};
use crate::plugin::{plugin_at, PluginRegistry, ReconPlugin};
use crate::runs::{run_after, Step};
use crate::text::{first_some, same_text};

verus! {

/// The entities produced by a single completed stage.
pub struct StageOutcome {
    pub stage: String,
    pub entities: Vec<Entity>,
}

/// Runs pipelines with the plugins of a registry.
pub struct ExecutionEngine<P> {
    pub registry: PluginRegistry<P>,
}

/// The first plugin that a pipeline asks for in vain.
pub open spec fn unknown_plugin<P: ReconPlugin>(p: PipelineView, plugins: Seq<P>) -> Option<
    Seq<char>,
> {
    first_some(p.stages.map_values(|s: StageView| missing_plugin(s, plugins)))
}

/// The plugin of a stage, if it is not there.
pub open spec fn missing_plugin<P: ReconPlugin>(s: StageView, plugins: Seq<P>) -> Option<
    Seq<char>,
> {
    if plugin_at(plugins, s.plugin) is None {
        Some(s.plugin)
    } else {
        None
    }
}

impl<P: ReconPlugin> ExecutionEngine<P> {
    /// Whether the pipeline is in shape and all its plugins are there.
    pub open spec fn finds_nothing_wrong(&self, p: PipelineView) -> bool {
        p.problem() is None && unknown_plugin(p, self.registry@) is None
    }

    pub fn new(registry: PluginRegistry<P>) -> (r: Self)
        ensures
            r.registry == registry,
    {
        ExecutionEngine { registry }
    }

    /// What is tested first: the shape of the pipeline, then its plugins.
    pub fn examine(&self, pipeline: &PipelineDef) -> (r: Result<(), Error>)
        ensures
            match r {
                Ok(()) => pipeline@.valid() && self.finds_nothing_wrong(pipeline@),
                Err(e) => match pipeline@.problem() {
                    Some(m) => e@ == ErrorView::InvalidPipeline(m),
                    None => unknown_plugin(pipeline@, self.registry@) matches Some(name) && e@
                        == ErrorView::UnknownPlugin(name),
                },
            },
    {
        let ghost p = pipeline@;
        match pipeline.validate() {
            Ok(()) => {},
            Err(e) => return Err(e),
        }
        proof {
            law_accepted_pipelines_are_valid(p);
        }
        let ghost found = p.stages.map_values(
            |s: StageView| missing_plugin(s, self.registry@),
        );
        let mut i: usize = 0;
        assert(first_some(found.take(0)) is None);
        while i < pipeline.stages.len()
            invariant
                i <= pipeline.stages.len(),
                p == pipeline@,
                p.problem() is None,
                found == p.stages.map_values(|s: StageView| missing_plugin(s, self.registry@)),
                first_some(found.take(i as int)) is None,
            decreases pipeline.stages.len() - i,
        {
            proof {
                assert(p.stages[i as int] == pipeline.stages@[i as int]@);
                assert(found.take(i + 1).drop_last() == found.take(i as int));
                assert(found.take(i + 1).last() == missing_plugin(
                    p.stages[i as int],
                    self.registry@,
                ));
            }
            match self.registry.get(pipeline.stages[i].plugin.as_str()) {
                Ok(_) => {},
                Err(e) => {
                    proof {
                        assert(first_some(found.take(i + 1)) is Some);
                        lemma_some_in_prefix(found, i + 1);
                    }
                    return Err(e);
                },
            }
            i += 1;
        }
        assert(found.take(i as int) == found);
        Ok(())
    }

    /// Everything that is tested before the first stage starts: the shape of
    /// the pipeline, then its plugins, then its dependencies.
    pub fn prepare(&self, pipeline: &PipelineDef) -> (r: Result<(), Error>)
        requires
            self.finds_nothing_wrong(pipeline@) ==> pipeline@.fits(),
        ensures
            match r {
                Ok(()) => pipeline@.valid() && unknown_plugin(pipeline@, self.registry@) is None
                    && pipeline@.acyclic(),
                Err(e) => match pipeline@.problem() {
                    Some(m) => e@ == ErrorView::InvalidPipeline(m),
                    None => match unknown_plugin(pipeline@, self.registry@) {
                        Some(name) => e@ == ErrorView::UnknownPlugin(name),
                        None => !pipeline@.acyclic() && exists|i: int| #[trigger]
                            pipeline@.on_loop(i) && e@ == ErrorView::InvalidPipeline(
                                loop_complaint(pipeline@.stages[i].name),
                            ),
                    },
                },
            },
    {
        match self.examine(pipeline) {
            Ok(()) => assert_acyclic(pipeline),
            Err(e) => Err(e),
        }
    }
}

/// Where a stage is in a run. A stage that is done shows what it hands to the
/// stages that wait for it: nothing if it failed.
pub enum StageState {
    Waiting,
    Running,
    Done(Vec<Entity>),
}

/// The mathematical model of a stage's state.
pub enum StageStateView {
    Waiting,
    Running,
    Done(Seq<EntityView>),
}

impl View for StageState {
    type V = StageStateView;

    open spec fn view(&self) -> StageStateView {
        match *self {
            StageState::Waiting => StageStateView::Waiting,
            StageState::Running => StageStateView::Running,
            StageState::Done(es) => StageStateView::Done(entity_views(es@)),
        }
    }
}

/// The models of the states of all stages.
pub open spec fn state_views(v: Seq<StageState>) -> Seq<StageStateView> {
    v.map_values(|s: StageState| s@)
}

/// How many stages are running.
pub open spec fn running_count(states: Seq<StageStateView>) -> nat
    decreases states.len(),
{
    if states.len() == 0 {
        0
    } else {
        running_count(states.drop_last()) + if states.last() is Running {
            1nat
        } else {
            0nat
        }
    }
}

/// The work that is left of a run: two steps for a stage that waits, one for a
/// stage that runs.
pub open spec fn work(states: Seq<StageStateView>) -> nat
    decreases states.len(),
{
    if states.len() == 0 {
        0
    } else {
        work(states.drop_last()) + match states.last() {
            StageStateView::Waiting => 2nat,
            StageStateView::Running => 1nat,
            StageStateView::Done(_) => 0nat,
        }
    }
}

impl PipelineView {
    /// Whether the `k`th ordering-only dependency of one stage is another. One
    /// that is also the stage's input is left out, and one on the seed is met
    /// from the beginning.
    pub open spec fn extra_is(self, i: int, k: int, j: int) -> bool {
        0 <= k < self.stages[i].depends_on.len() && self.stages[i].depends_on[k]
            != self.stages[i].input && self.stage_at(self.stages[i].depends_on[k]) == Some(j)
    }

    /// The stage whose output a stage takes as its input, if not the seed.
    pub open spec fn input_stage(self, i: int) -> Option<int> {
        if self.stages[i].input == SEED_INPUT@ {
            None
        } else {
            self.stage_at(self.stages[i].input)
        }
    }

    /// Whether one stage waits for another.
    pub open spec fn waits_for(self, i: int, j: int) -> bool {
        self.input_stage(i) == Some(j) || exists|k: int| self.extra_is(i, k, j)
    }
}

/// The mathematical model of a run.
pub struct ExecutionView {
    pub pipeline: PipelineView,
    pub seed: Seq<EntityView>,
    pub states: Seq<StageStateView>,
    pub graph: GraphModel,
    pub error: Option<ErrorView>,
}

impl ExecutionView {
    /// How many stages may run at the same time.
    pub open spec fn limit(self) -> usize {
        if self.pipeline.concurrency < 1 {
            1
        } else {
            self.pipeline.concurrency
        }
    }

    /// Whether a stage waits only for its turn.
    pub open spec fn ready(self, i: int) -> bool {
        &&& 0 <= i < self.states.len()
        &&& self.states[i] is Waiting
        &&& forall|j: int| #[trigger] self.pipeline.waits_for(i, j) ==> self.states[j] is Done
    }

    /// What a stage is given: the seed, or the output of its input stage.
    pub open spec fn input_of(self, i: int) -> Seq<EntityView> {
        match self.pipeline.input_stage(i) {
            None => self.seed,
            Some(j) => self.states[j]->Done_0,
        }
    }

    /// Whether every stage is done.
    pub open spec fn finished(self) -> bool {
        forall|i: int| 0 <= i < self.states.len() ==> (#[trigger] self.states[i]) is Done
    }

    /// The pipeline can be run, every stage that has started did so after the
    /// stages it waits for were done, and the limit is kept.
    pub open spec fn well_formed(self) -> bool {
        &&& self.pipeline.valid()
        &&& self.pipeline.acyclic()
        &&& self.states.len() == self.pipeline.stages.len()
        &&& running_count(self.states) <= self.limit()
        &&& forall|i: int, j: int|
            0 <= i < self.states.len() && !(self.states[i] is Waiting)
                && #[trigger] self.pipeline.waits_for(i, j) ==> self.states[j] is Done
    }

    /// The run once a stage has started.
    pub open spec fn started(self, i: int) -> ExecutionView {
        ExecutionView { states: self.states.update(i, StageStateView::Running), ..self }
    }

    /// The run once a stage has succeeded.
    pub open spec fn succeeded(self, i: int, es: Seq<EntityView>) -> ExecutionView {
        ExecutionView {
            states: self.states.update(i, StageStateView::Done(es)),
            graph: self.graph.with_entities(es),
            ..self
        }
    }

    /// The run once a stage has failed: those that wait for it get nothing,
    /// and the first failure is remembered.
    pub open spec fn failed(self, i: int, e: ErrorView) -> ExecutionView {
        ExecutionView {
            states: self.states.update(i, StageStateView::Done(Seq::empty())),
            error: match self.error {
                Some(first) => Some(first),
                None => Some(e),
            },
            ..self
        }
    }
}

/// The step by which a stage ends with a result.
pub open spec fn end_of(stage: int, result: Result<StageOutcome, Error>) -> Step {
    match result {
        Ok(outcome) => Step::Success(stage, entity_views(outcome.entities@)),
        Err(e) => Step::Failure(stage, e@),
    }
}

/// The run before any stage has started: the seed is in the graph.
pub open spec fn begun(p: PipelineView, seed: Seq<EntityView>) -> ExecutionView {
    ExecutionView {
        pipeline: p,
        seed,
        states: Seq::new(p.stages.len(), |i: int| StageStateView::Waiting),
        graph: empty_graph().with_entities(seed),
        error: None,
    }
}

/// What to do next in a run.
pub enum Action {
    /// Start this stage with this input.
    Start { stage: usize, input: Vec<Entity> },
    /// Wait until one of the running stages is done.
    Wait,
    /// There is nothing left to do.
    Finished,
}

/// A pipeline that is being run.
pub struct Execution {
    pipeline: Ghost<PipelineView>,
    limit: usize,
    inputs: Vec<Option<usize>>,
    extras: Vec<Vec<usize>>,
    seed: Vec<Entity>,
    states: Vec<StageState>,
    running: usize,
    graph: EntityGraph,
    first_error: Option<Error>,
    steps: Ghost<Seq<Step>>,
}

impl View for Execution {
    type V = ExecutionView;

    closed spec fn view(&self) -> ExecutionView {
        ExecutionView {
            pipeline: self.pipeline@,
            seed: entity_views(self.seed@),
            states: state_views(self.states@),
            graph: self.graph@,
            error: match self.first_error {
                Some(e) => Some(e@),
                None => None,
            },
        }
    }
}

pub proof fn lemma_running_update(states: Seq<StageStateView>, i: int, s: StageStateView)
    requires
        0 <= i < states.len(),
    ensures
        running_count(states.update(i, s)) + (if states[i] is Running {
            1int
        } else {
            0int
        }) == running_count(states) + (if s is Running {
            1int
        } else {
            0int
        }),
    decreases states.len(),
{
    let after = states.update(i, s);
    if i == states.len() - 1 {
        assert(after.drop_last() == states.drop_last());
    } else {
        assert(after.drop_last() == states.drop_last().update(i, s));
        lemma_running_update(states.drop_last(), i, s);
    }
}

pub proof fn lemma_running_none(states: Seq<StageStateView>)
    ensures
        running_count(states) == 0 <==> forall|i: int|
            0 <= i < states.len() ==> !((#[trigger] states[i]) is Running),
        running_count(states) <= states.len(),
    decreases states.len(),
{
    if states.len() > 0 {
        let front = states.drop_last();
        lemma_running_none(front);
        if running_count(states) == 0 {
            assert forall|i: int| 0 <= i < states.len() implies !((#[trigger] states[i])
                is Running) by {
                if i < front.len() {
                    assert(front[i] == states[i]);
                }
            }
        }
        if forall|i: int| 0 <= i < states.len() ==> !((#[trigger] states[i]) is Running) {
            assert forall|i: int| 0 <= i < front.len() implies !((#[trigger] front[i])
                is Running) by {
                assert(front[i] == states[i]);
            }
            assert(!(states[states.len() - 1] is Running));
        }
    }
}

proof fn lemma_work_update(states: Seq<StageStateView>, i: int, s: StageStateView)
    requires
        0 <= i < states.len(),
    ensures
        work(states.update(i, s)) + work(seq![states[i]]) == work(states) + work(seq![s]),
    decreases states.len(),
{
    reveal_with_fuel(work, 2);
    let after = states.update(i, s);
    assert(seq![states[i]].drop_last() == Seq::<StageStateView>::empty());
    assert(seq![s].drop_last() == Seq::<StageStateView>::empty());
    if i == states.len() - 1 {
        assert(after.drop_last() == states.drop_last());
    } else {
        assert(after.drop_last() == states.drop_last().update(i, s));
        lemma_work_update(states.drop_last(), i, s);
    }
}

pub proof fn lemma_waits_are_dependencies(p: PipelineView, i: int, j: int)
    requires
        0 <= i < p.stages.len(),
        p.waits_for(i, j),
    ensures
        p.depends(i, j),
        0 <= j < p.stages.len(),
{
    let s = p.stages[i];
    if p.input_stage(i) == Some(j) {
        lemma_first_at(p.names(), s.input);
        assert(p.dependency_is(i, s.depends_on.len() as int, j));
    } else {
        let k = choose|k: int| p.extra_is(i, k, j);
        lemma_first_at(p.names(), s.depends_on[k]);
        assert(s.dependencies()[k] == s.depends_on[k]);
        assert(p.dependency_is(i, k, j));
    }
}

proof fn lemma_lowest_waiting(states: Seq<StageStateView>, rank: Seq<int>, n: int) -> (low: int)
    requires
        0 <= n <= states.len(),
        rank.len() == states.len(),
        exists|i: int| 0 <= i < n && (#[trigger] states[i]) is Waiting,
    ensures
        0 <= low < n,
        states[low] is Waiting,
        forall|i: int| 0 <= i < n && (#[trigger] states[i]) is Waiting ==> rank[low] <= rank[i],
    decreases n,
{
    if exists|i: int| 0 <= i < n - 1 && (#[trigger] states[i]) is Waiting {
        let low = lemma_lowest_waiting(states, rank, n - 1);
        if states[n - 1] is Waiting && rank[n - 1] < rank[low] {
            n - 1
        } else {
            low
        }
    } else {
        n - 1
    }
}

/// Every dependency of a stage of a valid pipeline, other than the seed, is a
/// stage that it waits for.
pub proof fn law_dependencies_are_waited_for(p: PipelineView, i: int, k: int)
    requires
        p.valid(),
        0 <= i < p.stages.len(),
        0 <= k < p.stages[i].dependencies().len(),
        p.stages[i].dependencies()[k] != SEED_INPUT@,
    ensures
        exists|j: int|
            0 <= j < p.stages.len() && p.stages[j].name == p.stages[i].dependencies()[k]
                && #[trigger] p.waits_for(i, j),
{
    let s = p.stages[i];
    let dep = s.dependencies()[k];
    assert(p.known(p.stages[i].dependencies()[k]));
    lemma_first_at(p.names(), dep);
    let j = p.stage_at(dep)->0;
    assert(p.names()[j] == p.stages[j].name);
    if dep != s.input {
        assert(p.extra_is(i, k, j));
    }
    assert(p.waits_for(i, j));
}

/// A dependency on the seed is met from the beginning: where no stage has that
/// name, nothing is waited for on its account.
pub proof fn law_a_dependency_on_the_seed_is_met(p: PipelineView, i: int, k: int, j: int)
    requires
        p.stage_at(SEED_INPUT@) is None,
        0 <= i < p.stages.len(),
        0 <= k < p.stages[i].depends_on.len(),
        p.stages[i].depends_on[k] == SEED_INPUT@,
    ensures
        !p.extra_is(i, k, j),
{
}

/// A run never gets stuck: as long as it is not finished, a stage is running
/// or one is ready.
pub proof fn law_never_stuck(v: ExecutionView)
    requires
        v.well_formed(),
    ensures
        v.finished() || running_count(v.states) > 0 || exists|i: int| v.ready(i),
{
    lemma_running_none(v.states);
    if !v.finished() && running_count(v.states) == 0 {
        let open = choose|i: int| 0 <= i < v.states.len() && !((#[trigger] v.states[i]) is Done);
        assert(v.states[open] is Waiting);
        let rank = choose|rank: Seq<int>| v.pipeline.ranked_by(rank);
        let low = lemma_lowest_waiting(v.states, rank, v.states.len() as int);
        assert forall|j: int| #[trigger] v.pipeline.waits_for(low, j) implies v.states[j]
            is Done by {
            lemma_waits_are_dependencies(v.pipeline, low, j);
            assert(rank[j] < rank[low]);
        }
        assert(v.ready(low));
    }
}

/// Every step keeps a run well formed: a stage that is ready starts, or a stage
/// that runs ends, well or not.
pub proof fn law_steps_keep_a_run_well_formed(
    v: ExecutionView,
    i: int,
    es: Seq<EntityView>,
    e: ErrorView,
)
    requires
        v.well_formed(),
    ensures
        v.ready(i) && running_count(v.states) < v.limit() ==> v.started(i).well_formed(),
        0 <= i < v.states.len() && v.states[i] is Running ==> v.succeeded(i, es).well_formed()
            && v.failed(i, e).well_formed(),
{
    if 0 <= i < v.states.len() {
        lemma_running_update(v.states, i, StageStateView::Running);
        lemma_running_update(v.states, i, StageStateView::Done(es));
        lemma_running_update(v.states, i, StageStateView::Done(Seq::empty()));
    }
    if v.ready(i) {
        let after = v.started(i);
        assert forall|a: int, b: int|
            0 <= a < after.states.len() && !(after.states[a] is Waiting)
                && #[trigger] after.pipeline.waits_for(a, b) implies after.states[b] is Done by {
            if a != i {
                assert(!(v.states[a] is Waiting));
            }
            assert(v.pipeline.waits_for(a, b));
            lemma_waits_are_dependencies(v.pipeline, a, b);
        }
    }
    if 0 <= i < v.states.len() && v.states[i] is Running {
        let good = v.succeeded(i, es);
        assert forall|a: int, b: int|
            0 <= a < good.states.len() && !(good.states[a] is Waiting)
                && #[trigger] good.pipeline.waits_for(a, b) implies good.states[b] is Done by {
            assert(v.pipeline.waits_for(a, b));
            assert(!(v.states[a] is Waiting));
            lemma_waits_are_dependencies(v.pipeline, a, b);
        }
        let bad = v.failed(i, e);
        assert forall|a: int, b: int|
            0 <= a < bad.states.len() && !(bad.states[a] is Waiting)
                && #[trigger] bad.pipeline.waits_for(a, b) implies bad.states[b] is Done by {
            assert(v.pipeline.waits_for(a, b));
            assert(!(v.states[a] is Waiting));
            lemma_waits_are_dependencies(v.pipeline, a, b);
        }
    }
}

/// Every step of a run leaves less work, so that every run ends; and when no
/// work is left, the run is finished.
pub proof fn law_every_step_leaves_less_work(
    v: ExecutionView,
    i: int,
    es: Seq<EntityView>,
    e: ErrorView,
)
    requires
        0 <= i < v.states.len(),
    ensures
        v.states[i] is Waiting ==> work(v.started(i).states) + 1 == work(v.states),
        v.states[i] is Running ==> work(v.succeeded(i, es).states) + 1 == work(v.states),
        v.states[i] is Running ==> work(v.failed(i, e).states) + 1 == work(v.states),
        work(v.states) == 0 ==> v.finished(),
{
    reveal_with_fuel(work, 2);
    lemma_work_update(v.states, i, StageStateView::Running);
    lemma_work_update(v.states, i, StageStateView::Done(es));
    lemma_work_update(v.states, i, StageStateView::Done(Seq::empty()));
    let one = |s: StageStateView| seq![s];
    assert(one(v.states[i]).drop_last() == Seq::<StageStateView>::empty());
    assert(one(StageStateView::Running).drop_last() == Seq::<StageStateView>::empty());
    assert(one(StageStateView::Done(es)).drop_last() == Seq::<StageStateView>::empty());
    assert(one(StageStateView::Done(Seq::empty())).drop_last() == Seq::<StageStateView>::empty());
    lemma_no_work_left(v.states);
}

proof fn lemma_no_work_left(states: Seq<StageStateView>)
    ensures
        work(states) == 0 ==> forall|i: int|
            0 <= i < states.len() ==> (#[trigger] states[i]) is Done,
    decreases states.len(),
{
    if states.len() > 0 {
        lemma_no_work_left(states.drop_last());
        if work(states) == 0 {
            assert forall|i: int| 0 <= i < states.len() implies (#[trigger] states[i]) is Done by {
                if i < states.len() - 1 {
                    assert(states.drop_last()[i] == states[i]);
                }
            }
        }
    }
}

/// A failure never goes away: once a run has failed, it ends with the error
/// that came first.
pub proof fn law_first_error_is_kept(v: ExecutionView, i: int, es: Seq<EntityView>, e: ErrorView)
    requires
        v.error is Some,
    ensures
        v.started(i).error == v.error,
        v.succeeded(i, es).error == v.error,
        v.failed(i, e).error == v.error,
{
}

/// Whether an artifact is in a graph.
pub open spec fn holds(m: GraphModel, e: EntityView) -> bool {
    place_of(m.nodes, e.entity_type, e.value) is Some
}

impl ExecutionView {
    /// Whether everything that came out of the stages so far, and the seed, is
    /// in the graph.
    pub open spec fn complete_so_far(self) -> bool {
        &&& forall|k: int| 0 <= k < self.seed.len() ==> holds(self.graph, #[trigger] self.seed[k])
        &&& forall|i: int, k: int|
            0 <= i < self.states.len() && self.states[i] is Done && 0 <= k
                < self.states[i]->Done_0.len() ==> holds(
                self.graph,
                #[trigger] self.states[i]->Done_0[k],
            )
    }
}

proof fn lemma_batch_is_held(m: GraphModel, es: Seq<EntityView>, known: EntityView)
    ensures
        holds(m, known) ==> holds(m.with_entities(es), known),
        forall|k: int| 0 <= k < es.len() ==> holds(m.with_entities(es), #[trigger] es[k]),
    decreases es.len(),
{
    if es.len() > 0 {
        let near = m.with_entities(es.drop_last());
        let last = es.last();
        lemma_batch_is_held(m, es.drop_last(), known);
        law_added_entity_is_found(near, last);
        if holds(m, known) {
            lemma_stays_held(near, last, known);
        }
        assert forall|k: int| 0 <= k < es.len() implies holds(
            m.with_entities(es),
            #[trigger] es[k],
        ) by {
            if k < es.len() - 1 {
                assert(es.drop_last()[k] == es[k]);
                lemma_stays_held(near, last, es[k]);
            }
        }
    }
}

proof fn lemma_stays_held(m: GraphModel, e: EntityView, known: EntityView)
    requires
        holds(m, known),
    ensures
        holds(m.with_entity(e), known),
{
    let after = m.with_entity(e).nodes;
    lemma_place_of(m.nodes, e.entity_type, e.value);
    lemma_place_of(m.nodes, known.entity_type, known.value);
    lemma_place_of(after, known.entity_type, known.value);
    let i = place_of(m.nodes, known.entity_type, known.value)->0;
    assert(after[i].entity_type == known.entity_type && after[i].value == known.value);
}

/// The seed is in the graph when a run begins.
pub proof fn law_seed_is_merged(p: PipelineView, seed: Seq<EntityView>)
    ensures
        begun(p, seed).complete_so_far(),
{
    if seed.len() > 0 {
        lemma_batch_is_held(empty_graph(), seed, seed[0]);
    }
}

/// Every stage's output is merged into one graph: no step takes anything away,
/// and what a stage hands out is added.
pub proof fn law_no_output_is_lost(
    v: ExecutionView,
    i: int,
    es: Seq<EntityView>,
    e: ErrorView,
)
    requires
        v.complete_so_far(),
        0 <= i < v.states.len(),
    ensures
        v.started(i).complete_so_far(),
        v.succeeded(i, es).complete_so_far(),
        v.failed(i, e).complete_so_far(),
{
    let good = v.succeeded(i, es);
    assert forall|k: int| 0 <= k < good.seed.len() implies holds(
        good.graph,
        #[trigger] good.seed[k],
    ) by {
        lemma_batch_is_held(v.graph, es, v.seed[k]);
    }
    assert forall|a: int, k: int|
        0 <= a < good.states.len() && good.states[a] is Done && 0 <= k
            < good.states[a]->Done_0.len() implies holds(
        good.graph,
        #[trigger] good.states[a]->Done_0[k],
    ) by {
        if a == i {
            lemma_batch_is_held(v.graph, es, es[k]);
        } else {
            assert(good.states[a] == v.states[a]);
            lemma_batch_is_held(v.graph, es, v.states[a]->Done_0[k]);
        }
    }
    let begun_stage = v.started(i);
    assert forall|a: int, k: int|
        0 <= a < begun_stage.states.len() && begun_stage.states[a] is Done && 0 <= k
            < begun_stage.states[a]->Done_0.len() implies holds(
        begun_stage.graph,
        #[trigger] begun_stage.states[a]->Done_0[k],
    ) by {
        assert(begun_stage.states[a] == v.states[a]);
    }
    let bad = v.failed(i, e);
    assert forall|a: int, k: int|
        0 <= a < bad.states.len() && bad.states[a] is Done && 0 <= k
            < bad.states[a]->Done_0.len() implies holds(
        bad.graph,
        #[trigger] bad.states[a]->Done_0[k],
    ) by {
        if a != i {
            assert(bad.states[a] == v.states[a]);
        }
    }
}

impl Execution {
    spec fn indexed(&self) -> bool {
        let p = self.pipeline@;
        &&& self.limit == self@.limit()
        &&& self.inputs@.len() == p.stages.len()
        &&& self.extras@.len() == p.stages.len()
        &&& forall|i: int|
            0 <= i < p.stages.len() ==> match #[trigger] self.inputs@[i] {
                Some(j) => p.input_stage(i) == Some(j as int) && j < p.stages.len(),
                None => p.stages[i].input == SEED_INPUT@,
            }
        &&& forall|i: int, k: int|
            0 <= i < p.stages.len() && 0 <= k < self.extras@[i]@.len()
                ==> #[trigger] self.extras@[i]@[k] < p.stages.len() && p.waits_for(
                i,
                self.extras@[i]@[k] as int,
            )
        &&& forall|i: int, k: int, j: int|
            0 <= i < p.stages.len() && #[trigger] p.extra_is(i, k, j) ==> self.extras@[i]@.contains(
                j as usize,
            )
    }

    /// The run is well formed, and what is kept beside it agrees with it.
    pub closed spec fn wf(&self) -> bool {
        &&& self@.well_formed()
        &&& self.graph.wf()
        &&& self.running == running_count(self@.states)
        &&& self.indexed()
        &&& run_after(self@.pipeline, self@.seed, self.steps@) == Some(self@)
    }

    /// The steps of the run so far: which stage started with which input, and
    /// which ended how.
    pub closed spec fn steps(&self) -> Seq<Step> {
        self.steps@
    }

    /// In every run no more stages are running than may, and every stage that
    /// has started did so after the stages it waits for were done.
    pub proof fn law_every_run_is_well_formed(&self)
        requires
            self.wf(),
        ensures
            self@.well_formed(),
            run_after(self@.pipeline, self@.seed, self.steps()) == Some(self@),
    {
    }

    /// Begins a run of a pipeline that was found fit to run.
    pub fn start(pipeline: &PipelineDef, seed: Vec<Entity>) -> (r: Self)
        requires
            pipeline@.valid(),
            pipeline@.acyclic(),
            empty_graph().with_entities(entity_views(seed@)).fits(),
        ensures
            r.wf(),
            r@ == begun(pipeline@, entity_views(seed@)),
            r.steps() == Seq::<Step>::empty(),
    {
        let ghost p = pipeline@;
        let n: usize = pipeline.stages.len();
        let mut inputs: Vec<Option<usize>> = Vec::new();
        let mut extras: Vec<Vec<usize>> = Vec::new();
        let mut states: Vec<StageState> = Vec::new();
        let mut i: usize = 0;
        while i < n
            invariant
                i <= n,
                n == pipeline.stages.len(),
                p == pipeline@,
                p.valid(),
                inputs@.len() == i,
                extras@.len() == i,
                states@.len() == i,
                forall|k: int| 0 <= k < i ==> (#[trigger] states@[k])@ == StageStateView::Waiting,
                forall|a: int|
                    0 <= a < i ==> match #[trigger] inputs@[a] {
                        Some(j) => p.input_stage(a) == Some(j as int) && j < p.stages.len(),
                        None => p.stages[a].input == SEED_INPUT@,
                    },
                forall|a: int, k: int|
                    0 <= a < i && 0 <= k < extras@[a]@.len() ==> #[trigger] extras@[a]@[k]
                        < p.stages.len() && p.waits_for(a, extras@[a]@[k] as int),
                forall|a: int, k: int, j: int|
                    0 <= a < i && #[trigger] p.extra_is(a, k, j) ==> extras@[a]@.contains(
                        j as usize,
                    ),
            decreases n - i,
        {
            let stage = &pipeline.stages[i];
            assert(p.stages[i as int] == stage@);
            let input: Option<usize> = if same_text(stage.input.as_str(), SEED_INPUT) {
                None
            } else {
                proof {
                    let deps = p.stages[i as int].dependencies();
                    assert(p.known(deps[deps.len() - 1]));
                    lemma_first_at(p.names(), stage.input@);
                }
                pipeline.position(stage.input.as_str())
            };
            let extra = extra_stages(pipeline, i);
            inputs.push(input);
            extras.push(extra);
            states.push(StageState::Waiting);
            i += 1;
        }
        let limit: usize = if pipeline.concurrency < 1 {
            1
        } else {
            pipeline.concurrency
        };
        let mut graph = EntityGraph::new();
        graph.add_entities(copy_entities(&seed));
        let r = Execution {
            pipeline: Ghost(p),
            limit,
            inputs,
            extras,
            seed,
            states,
            running: 0,
            graph,
            first_error: None,
            steps: Ghost(Seq::empty()),
        };
        proof {
            assert(r@.states == begun(p, entity_views(seed@)).states);
            lemma_running_none(r@.states);
        }
        r
    }

    /// Whether all stages that a stage waits for are done.
    fn is_ready(&self, i: usize) -> (r: bool)
        requires
            self.wf(),
            i < self@.states.len(),
        ensures
            r == self@.ready(i as int),
    {
        let ghost v = self@;
        let ghost p = v.pipeline;
        assert(v.states[i as int] == self.states@[i as int]@);
        match &self.states[i] {
            StageState::Waiting => {},
            _ => return false,
        }
        match self.inputs[i] {
            Some(j) => {
                assert(p.waits_for(i as int, j as int));
                assert(v.states[j as int] == self.states@[j as int]@);
                match &self.states[j] {
                    StageState::Done(_) => {},
                    _ => return false,
                }
            },
            None => {},
        }
        let extra = &self.extras[i];
        let mut k: usize = 0;
        while k < extra.len()
            invariant
                k <= extra.len(),
                i < v.states.len(),
                v == self@,
                p == v.pipeline,
                self.wf(),
                extra@ == self.extras@[i as int]@,
                forall|m: int| 0 <= m < k ==> v.states[#[trigger] extra@[m] as int] is Done,
            decreases extra.len() - k,
        {
            let j: usize = extra[k];
            assert(self.extras@[i as int]@[k as int] == j);
            assert(v.states[j as int] == self.states@[j as int]@);
            match &self.states[j] {
                StageState::Done(_) => {},
                _ => return false,
            }
            k += 1;
        }
        proof {
            assert forall|j: int| #[trigger] p.waits_for(i as int, j) implies v.states[j]
                is Done by {
                lemma_waits_are_dependencies(p, i as int, j);
                assert(j < self.states.len());
                if p.input_stage(i as int) != Some(j) {
                    let k = choose|k: int| p.extra_is(i as int, k, j);
                    assert(extra@.contains(j as usize));
                    let at = extra@.index_of(j as usize);
                    assert(extra@[at] == j as usize);
                }
            }
        }
        true
    }

    /// Decides what to do next. A stage that is to start counts as running
    /// from here on.
    pub fn next(&mut self) -> (r: Action)
        requires
            old(self).wf(),
        ensures
            final(self).wf(),
            match r {
                Action::Start { stage, input } => {
                    &&& old(self)@.ready(stage as int)
                    &&& forall|k: int| 0 <= k < stage ==> !old(self)@.ready(k)
                    &&& running_count(old(self)@.states) < old(self)@.limit()
                    &&& final(self)@ == old(self)@.started(stage as int)
                    &&& entity_views(input@) == old(self)@.input_of(stage as int)
                    &&& final(self).steps() == old(self).steps().push(
                        Step::Start(stage as int, entity_views(input@)),
                    )
                },
                Action::Wait => {
                    &&& final(self)@ == old(self)@
                    &&& final(self).steps() == old(self).steps()
                    &&& running_count(old(self)@.states) > 0
                    &&& running_count(old(self)@.states) == old(self)@.limit() || forall|i: int|
                        !old(self)@.ready(i)
                },
                Action::Finished => final(self)@ == old(self)@ && final(self).steps() == old(
                    self,
                ).steps() && old(self)@.finished(),
            },
    {
        let ghost v = self@;
        if self.running < self.limit {
            let n: usize = self.states.len();
            let mut i: usize = 0;
            while i < n
                invariant
                    i <= n,
                    n == self@.states.len(),
                    self.wf(),
                    *self == *old(self),
                    v == self@,
                    self.running < self.limit,
                    forall|k: int| 0 <= k < i ==> !v.ready(k),
                decreases n - i,
            {
                if self.is_ready(i) {
                    let input = match self.inputs[i] {
                        Some(j) => {
                            assert(v.pipeline.waits_for(i as int, j as int));
                            assert(v.states[j as int] == self.states@[j as int]@);
                            match &self.states[j] {
                                StageState::Done(es) => copy_entities(es),
                                _ => Vec::new(),
                            }
                        },
                        None => copy_entities(&self.seed),
                    };
                    let ghost step = Step::Start(i as int, entity_views(input@));
                    let ghost all = self.steps@.push(step);
                    assert(all.drop_last() =~= self.steps@);
                    self.states.set(i, StageState::Running);
                    self.running = self.running + 1;
                    self.steps = Ghost(all);
                    proof {
                        assert(self@.states == v.states.update(i as int, StageStateView::Running));
                        assert(self@ == v.started(i as int));
                        lemma_running_update(v.states, i as int, StageStateView::Running);
                        law_steps_keep_a_run_well_formed(
                            v,
                            i as int,
                            Seq::empty(),
                            ErrorView::Io(Seq::empty()),
                        );
                    }
                    return Action::Start { stage: i, input };
                }
                i += 1;
            }
        }
        proof {
            law_never_stuck(v);
        }
        if self.running > 0 {
            Action::Wait
        } else {
            Action::Finished
        }
    }

    /// Whether there is certainly room in the graph for the result of a stage.
    pub fn has_room_for(&self, entities: &Vec<Entity>) -> (r: bool)
        requires
            self.wf(),
        ensures
            r ==> self@.graph.with_entities(entity_views(entities@)).fits(),
            r == (self@.graph.nodes.len() + entities@.len() <= u32::MAX && self@.graph.edges.len()
                + self@.graph.pending.len() + crate::graph::relation_count(
                entity_views(entities@),
            ) <= u32::MAX),
    {
        self.graph.has_room_for(entities)
    }

    /// Takes the result of a stage that was running.
    pub fn complete(&mut self, stage: usize, result: Result<StageOutcome, Error>)
        requires
            old(self).wf(),
            stage < old(self)@.states.len(),
            old(self)@.states[stage as int] is Running,
            result matches Ok(outcome) ==> old(self)@.graph.with_entities(
                entity_views(outcome.entities@),
            ).fits(),
        ensures
            final(self).wf(),
            final(self)@ == match result {
                Ok(outcome) => old(self)@.succeeded(
                    stage as int,
                    entity_views(outcome.entities@),
                ),
                Err(e) => old(self)@.failed(stage as int, e@),
            },
            final(self).steps() == old(self).steps().push(end_of(stage as int, result)),
    {
        let ghost v = self@;
        let ghost step = end_of(stage as int, result);
        let ghost all = self.steps@.push(step);
        assert(all.drop_last() =~= self.steps@);
        self.steps = Ghost(all);
        proof {
            lemma_running_none(v.states);
        }
        match result {
            Ok(outcome) => {
                let ghost es = entity_views(outcome.entities@);
                let shown = copy_entities(&outcome.entities);
                self.graph.add_entities(outcome.entities);
                self.states.set(stage, StageState::Done(shown));
                self.running = self.running - 1;
                proof {
                    assert(self@.states == v.states.update(stage as int, StageStateView::Done(es)));
                    lemma_running_update(v.states, stage as int, StageStateView::Done(es));
                    law_steps_keep_a_run_well_formed(
                        v,
                        stage as int,
                        es,
                        ErrorView::Io(Seq::empty()),
                    );
                }
            },
            Err(e) => {
                let ghost err = e@;
                let none: Vec<Entity> = Vec::new();
                assert(entity_views(none@) == Seq::<EntityView>::empty());
                self.states.set(stage, StageState::Done(none));
                self.running = self.running - 1;
                if self.first_error.is_none() {
                    self.first_error = Some(e);
                }
                proof {
                    let nothing = StageStateView::Done(Seq::empty());
                    assert(self@.states == v.states.update(stage as int, nothing));
                    lemma_running_update(v.states, stage as int, nothing);
                    law_steps_keep_a_run_well_formed(v, stage as int, Seq::empty(), err);
                }
            },
        }
    }

    /// The result of a run: the graph, or the first error of a stage.
    pub fn finish(self) -> (r: Result<EntityGraph, Error>)
        requires
            self.wf(),
            self@.finished(),
        ensures
            match r {
                Ok(g) => self@.error is None && g.wf() && g@ == self@.graph,
                Err(e) => self@.error == Some(e@),
            },
    {
        match self.first_error {
            Some(e) => Err(e),
            None => Ok(self.graph),
        }
    }
}

/// The positions of the ordering-only dependencies of a stage.
fn extra_stages(pipeline: &PipelineDef, i: usize) -> (r: Vec<usize>)
    requires
        i < pipeline@.stages.len(),
    ensures
        forall|k: int|
            0 <= k < r@.len() ==> #[trigger] r@[k] < pipeline@.stages.len() && pipeline@.waits_for(
                i as int,
                r@[k] as int,
            ),
        forall|k: int, j: int| #[trigger]
            pipeline@.extra_is(i as int, k, j) ==> r@.contains(j as usize),
{
    let ghost p = pipeline@;
    let stage = &pipeline.stages[i];
    let mut r: Vec<usize> = Vec::new();
    let mut k: usize = 0;
    assert(p.stages[i as int] == stage@);
    while k < stage.depends_on.len()
        invariant
            k <= stage.depends_on.len(),
            i < p.stages.len(),
            p == pipeline@,
            p.stages[i as int] == stage@,
            forall|m: int|
                0 <= m < r@.len() ==> #[trigger] r@[m] < p.stages.len() && p.waits_for(
                    i as int,
                    r@[m] as int,
                ),
            forall|m: int, j: int|
                m < k && #[trigger] p.extra_is(i as int, m, j) ==> r@.contains(j as usize),
        decreases stage.depends_on.len() - k,
    {
        let dep = stage.depends_on[k].as_str();
        let ghost before = r@;
        assert(stage@.depends_on[k as int] == dep@);
        if !same_text(dep, stage.input.as_str()) {
            match pipeline.position(dep) {
                Some(j) => {
                    r.push(j);
                    assert(p.extra_is(i as int, k as int, j as int));
                    assert forall|m: int, b: int|
                        m < k + 1 && #[trigger] p.extra_is(i as int, m, b) implies r@.contains(
                        b as usize,
                    ) by {
                        if m < k {
                            let at = before.index_of(b as usize);
                            assert(r@[at] == b as usize);
                        } else {
                            assert(r@[before.len() as int] == b as usize);
                        }
                    }
                },
                None => {},
            }
        } else {
            assert forall|m: int, b: int|
                m < k + 1 && #[trigger] p.extra_is(i as int, m, b) implies r@.contains(
                b as usize,
            ) by {}
        }
        k += 1;
    }
    r
}

/// How one attempt to run a stage ended.
pub enum Attempt {
    /// The plugin came to an end.
    Finished(Result<Vec<Entity>, Error>),
    /// The stage's timeout came first.
    TimedOut,
}

/// What to do after an attempt.
pub enum Retry {
    /// The stage is done.
    Return(Result<StageOutcome, Error>),
    /// Try again after so many milliseconds.
    Backoff(u64),
}

/// The pause after a failed attempt: 200 ms, doubled after each of the first
/// few attempts.
pub open spec fn backoff_ms(attempt: u32) -> u64 {
    match attempt {
        1 => 200,
        2 => 400,
        3 => 800,
        4 => 1600,
        _ => 3200,
    }
}

/// Decides what to do after the given attempt (the first is 1) to run a stage.
pub fn after_attempt(stage: &StageDef, attempt: u32, ended: Attempt) -> (r: Retry)
    requires
        stage.retries < u32::MAX,
        attempt >= 1,
        ended is TimedOut ==> stage.timeout_secs is Some,
    ensures
        match ended {
            Attempt::Finished(Ok(es)) => {
                &&& r matches Retry::Return(Ok(outcome))
                &&& outcome.stage@ == stage@.name
                &&& outcome.entities == es
            },
            Attempt::Finished(Err(e)) => if attempt <= stage.retries {
                r == Retry::Backoff(backoff_ms(attempt))
            } else {
                r == Retry::Return(Err::<StageOutcome, Error>(e))
            },
            Attempt::TimedOut => if attempt <= stage.retries {
                r == Retry::Backoff(backoff_ms(attempt))
            } else {
                r matches Retry::Return(Err(e)) && e@ == (ErrorView::Timeout {
                    stage: stage@.name,
                    secs: stage.timeout_secs->0,
                })
            },
        },
{
    let max_attempts: u32 = stage.retries + 1;
    let e = match ended {
        Attempt::Finished(Ok(entities)) => {
            return Retry::Return(Ok(StageOutcome { stage: stage.name.clone(), entities }));
        },
        Attempt::Finished(Err(e)) => e,
        Attempt::TimedOut => {
            let secs: u64 = match stage.timeout_secs {
                Some(secs) => secs,
                None => 0,
            };
            Error::Timeout { stage: stage.name.clone(), secs }
        },
    };
    if attempt < max_attempts {
        let mut pause: u64 = 200;
        let mut n: u32 = 1;
        while n < attempt && n < 5
            invariant
                1 <= n <= 5,
                n <= attempt,
                pause == backoff_ms(n),
            decreases 5 - n,
        {
            pause = pause * 2;
            n += 1;
        }
        Retry::Backoff(pause)
    } else {
        Retry::Return(Err(e))
    }
}

/// What an attempt to run a stage came to.
pub open spec fn result_of(stage: StageView, ended: Attempt) -> Result<Seq<Entity>, ErrorView> {
    match ended {
        Attempt::Finished(Ok(es)) => Ok(es@),
        Attempt::Finished(Err(e)) => Err(e@),
        Attempt::TimedOut => Err(
            ErrorView::Timeout { stage: stage.name, secs: stage.timeout_secs->0 },
        ),
    }
}

/// What a stage came to with the given attempts, if it is done.
pub open spec fn stage_end(stage: StageView, ended: Seq<Attempt>) -> Option<
    Result<Seq<Entity>, ErrorView>,
>
    decreases ended.len(),
{
    if ended.len() == 0 {
        None
    } else {
        match stage_end(stage, ended.drop_last()) {
            Some(r) => Some(r),
            None => {
                let r = result_of(stage, ended.last());
                if r is Ok || ended.len() > stage.retries {
                    Some(r)
                } else {
                    None
                }
            },
        }
    }
}

/// An attempt that ended with entities came to these, one that failed to its
/// error, and one that took too long to an error that names the stage and its
/// timeout.
pub proof fn law_an_attempt_comes_to_what_it_ended_with(
    stage: StageView,
    es: Vec<Entity>,
    e: Error,
    secs: u64,
)
    requires
        stage.timeout_secs == Some(secs),
    ensures
        result_of(stage, Attempt::Finished(Ok(es))) == Ok::<Seq<Entity>, ErrorView>(es@),
        result_of(stage, Attempt::Finished(Err(e))) == Err::<Seq<Entity>, ErrorView>(e@),
        result_of(stage, Attempt::TimedOut) == Err::<Seq<Entity>, ErrorView>(
            ErrorView::Timeout { stage: stage.name, secs },
        ),
{
}

/// A stage that is being run, attempt by attempt.
pub struct StageRun {
    stage: StageDef,
    attempt: u32,
    ended: Ghost<Seq<Attempt>>,
}

impl StageRun {
    /// The stage.
    pub closed spec fn stage(&self) -> StageView {
        self.stage@
    }

    /// The attempts that have ended, in order.
    pub closed spec fn ended(&self) -> Seq<Attempt> {
        self.ended@
    }

    pub closed spec fn wf(&self) -> bool {
        &&& self.stage.retries < u32::MAX
        &&& 1 <= self.attempt <= self.stage.retries + 1
        &&& stage_end(self.stage@, self.ended@) is None ==> self.ended@.len() + 1 == self.attempt
    }

    /// A stage before its first attempt.
    pub fn new(stage: &StageDef) -> (r: Self)
        requires
            stage.retries < u32::MAX,
        ensures
            r.wf(),
            r.stage() == stage@,
            r.ended() == Seq::<Attempt>::empty(),
    {
        StageRun { stage: stage.clone(), attempt: 1, ended: Ghost(Seq::empty()) }
    }

    /// Takes the end of an attempt, and decides what to do: the stage is done
    /// at the first success, or after as many attempts as it may have.
    pub fn attempt_ended(&mut self, ended: Attempt) -> (r: Retry)
        requires
            old(self).wf(),
            stage_end(old(self).stage(), old(self).ended()) is None,
            ended is TimedOut ==> old(self).stage().timeout_secs is Some,
        ensures
            final(self).wf(),
            final(self).stage() == old(self).stage(),
            final(self).ended() == old(self).ended().push(ended),
            match r {
                Retry::Return(Ok(outcome)) => outcome.stage@ == old(self).stage().name && stage_end(
                    final(self).stage(),
                    final(self).ended(),
                ) == Some(Ok::<Seq<Entity>, ErrorView>(outcome.entities@)),
                Retry::Return(Err(e)) => stage_end(final(self).stage(), final(self).ended())
                    == Some(Err::<Seq<Entity>, ErrorView>(e@)),
                Retry::Backoff(ms) => stage_end(final(self).stage(), final(self).ended()) is None
                    && final(self).ended().len() <= u32::MAX && ms == backoff_ms(
                    final(self).ended().len() as u32,
                ),
            },
    {
        let ghost all = self.ended@.push(ended);
        assert(all.drop_last() =~= self.ended@);
        let next = after_attempt(&self.stage, self.attempt, ended);
        self.ended = Ghost(all);
        if let Retry::Backoff(_) = next {
            self.attempt += 1;
        }
        next
    }
}

proof fn lemma_still_running(stage: StageView, ended: Seq<Attempt>)
    requires
        ended.len() <= stage.retries,
        forall|i: int| 0 <= i < ended.len() ==> result_of(stage, #[trigger] ended[i]) is Err,
    ensures
        stage_end(stage, ended) is None,
    decreases ended.len(),
{
    if ended.len() > 0 {
        assert forall|i: int| 0 <= i < ended.len() - 1 implies result_of(
            stage,
            #[trigger] ended.drop_last()[i],
        ) is Err by {
            assert(ended.drop_last()[i] == ended[i]);
        }
        lemma_still_running(stage, ended.drop_last());
    }
}

proof fn lemma_end_is_kept(stage: StageView, ended: Seq<Attempt>, n: int)
    requires
        0 <= n <= ended.len(),
        stage_end(stage, ended.take(n)) is Some,
    ensures
        stage_end(stage, ended) == stage_end(stage, ended.take(n)),
    decreases ended.len(),
{
    if n == ended.len() {
        assert(ended.take(n) == ended);
    } else {
        assert(ended.drop_last().take(n) == ended.take(n));
        lemma_end_is_kept(stage, ended.drop_last(), n);
    }
}

/// Whatever its attempts come to, a stage ends with the first that succeeds,
/// or else with the last that it may have, one more than its retries. It ends
/// with what that attempt came to, and not before.
pub proof fn law_a_stage_ends_at_the_first_success_or_the_last_attempt(
    stage: StageView,
    ended: Seq<Attempt>,
    n: int,
)
    requires
        0 <= n < ended.len(),
        n <= stage.retries,
        forall|i: int| 0 <= i < n ==> result_of(stage, #[trigger] ended[i]) is Err,
        result_of(stage, ended[n]) is Ok || n == stage.retries,
    ensures
        stage_end(stage, ended) == Some(result_of(stage, ended[n])),
        forall|k: int| 0 <= k <= n ==> stage_end(stage, #[trigger] ended.take(k)) is None,
{
    assert forall|k: int| 0 <= k <= n implies stage_end(stage, #[trigger] ended.take(k)) is None by {
        assert forall|i: int| 0 <= i < k implies result_of(
            stage,
            #[trigger] ended.take(k)[i],
        ) is Err by {
            assert(ended.take(k)[i] == ended[i]);
        }
        lemma_still_running(stage, ended.take(k));
    }
    assert(ended.take(n + 1).drop_last() == ended.take(n));
    assert(stage_end(stage, ended.take(n + 1)) == Some(result_of(stage, ended[n])));
    lemma_end_is_kept(stage, ended, n + 1);
}

/// A stage has ended if and only if an attempt succeeded or it has had one
/// attempt more than its retries.
pub proof fn law_every_stage_ends(stage: StageView, ended: Seq<Attempt>)
    ensures
        stage_end(stage, ended) is Some <==> ended.len() > stage.retries || exists|i: int|
            0 <= i < ended.len() && result_of(stage, #[trigger] ended[i]) is Ok,
    decreases ended.len(),
{
    if ended.len() > 0 {
        let front = ended.drop_last();
        law_every_stage_ends(stage, front);
        if exists|i: int| 0 <= i < front.len() && result_of(stage, #[trigger] front[i]) is Ok {
            let i = choose|i: int|
                0 <= i < front.len() && result_of(stage, #[trigger] front[i]) is Ok;
            assert(result_of(stage, ended[i]) is Ok);
        }
        if exists|i: int| 0 <= i < ended.len() && result_of(stage, #[trigger] ended[i]) is Ok {
            let i = choose|i: int|
                0 <= i < ended.len() && result_of(stage, #[trigger] ended[i]) is Ok;
            if i < front.len() {
                assert(result_of(stage, front[i]) is Ok);
            }
        }
        if stage_end(stage, front) is None && result_of(stage, ended.last()) is Ok {
            assert(result_of(stage, ended[ended.len() - 1]) is Ok);
        }
    }
}

/// A pause doubles after each of the first four attempts, and then stays.
pub proof fn law_backoff_doubles_up_to_a_limit(attempt: u32)
    requires
        1 <= attempt < u32::MAX,
    ensures
        backoff_ms((attempt + 1) as u32) == if attempt < 5 {
            2 * backoff_ms(attempt)
        } else {
            backoff_ms(attempt) as int
        },
        200 <= backoff_ms(attempt) <= 3200,
{
}

} // verus!
