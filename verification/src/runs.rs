//! Whole runs of a pipeline: what holds of every run, from its beginning on.
use vstd::prelude::*;

use crate::engine::{
    begun, law_every_step_leaves_less_work, law_never_stuck, law_no_output_is_lost,
    law_seed_is_merged, law_steps_keep_a_run_well_formed, lemma_running_none, lemma_running_update,
    lemma_waits_are_dependencies, running_count, work, Execution, ExecutionView, StageStateView,
};
use crate::entity::EntityView;
use crate::error::{Error, ErrorView};
use crate::graph::EntityGraph;
use crate::graph_model::{empty_graph, law_batches_add_up};
use crate::pipeline::{lemma_first_at, PipelineView};

verus! {

/// One step of a run.
pub enum Step {
    /// A stage starts with an input.
    Start(int, Seq<EntityView>),
    /// A stage ends with entities.
    Success(int, Seq<EntityView>),
    /// A stage ends with an error.
    Failure(int, ErrorView),
}

impl Step {
    /// What a step adds to the graph.
    pub open spec fn output(self) -> Seq<EntityView> {
        match self {
            Step::Success(_, es) => es,
            _ => Seq::empty(),
        }
    }
}

/// The run after a step, if the step can be made: a stage starts only when it
/// is ready and the limit allows it, and only a stage that is running ends.
pub open spec fn after_step(v: ExecutionView, step: Step) -> Option<ExecutionView> {
    match step {
        Step::Start(i, input) => if v.ready(i) && running_count(v.states) < v.limit() && input
            == v.input_of(i) {
            Some(v.started(i))
        } else {
            None
        },
        Step::Success(i, es) => if 0 <= i < v.states.len() && v.states[i] is Running {
            Some(v.succeeded(i, es))
        } else {
            None
        },
        Step::Failure(i, e) => if 0 <= i < v.states.len() && v.states[i] is Running {
            Some(v.failed(i, e))
        } else {
            None
        },
    }
}

/// The run of a pipeline after some steps, if all of them can be made.
pub open spec fn run_after(p: PipelineView, seed: Seq<EntityView>, steps: Seq<Step>) -> Option<
    ExecutionView,
>
    decreases steps.len(),
{
    if steps.len() == 0 {
        Some(begun(p, seed))
    } else {
        match run_after(p, seed, steps.drop_last()) {
            None => None,
            Some(v) => after_step(v, steps.last()),
        }
    }
}

/// What the stages handed out, in the order in which they ended.
pub open spec fn outputs(steps: Seq<Step>) -> Seq<EntityView>
    decreases steps.len(),
{
    if steps.len() == 0 {
        Seq::empty()
    } else {
        outputs(steps.drop_last()) + steps.last().output()
    }
}

/// The error of the stage that failed first.
pub open spec fn first_failure(steps: Seq<Step>) -> Option<ErrorView>
    decreases steps.len(),
{
    if steps.len() == 0 {
        None
    } else {
        match first_failure(steps.drop_last()) {
            Some(e) => Some(e),
            None => match steps.last() {
                Step::Failure(_, e) => Some(e),
                _ => None,
            },
        }
    }
}

/// Whether a pipeline was found fit to run.
pub open spec fn runnable(p: PipelineView) -> bool {
    p.valid() && p.acyclic()
}

proof fn lemma_work_of_waiting(states: Seq<StageStateView>)
    requires
        forall|i: int| 0 <= i < states.len() ==> (#[trigger] states[i]) is Waiting,
    ensures
        work(states) == 2 * states.len(),
    decreases states.len(),
{
    if states.len() > 0 {
        assert(states[states.len() - 1] is Waiting);
        lemma_work_of_waiting(states.drop_last());
    }
}

/// At every point of every run the run is well formed: no more stages are
/// running than may, and a stage has started only after the stages it waits
/// for were done. The seed and all outputs so far are in the graph.
pub proof fn law_every_point_of_a_run_is_well_formed(
    p: PipelineView,
    seed: Seq<EntityView>,
    steps: Seq<Step>,
)
    requires
        runnable(p),
        run_after(p, seed, steps) is Some,
    ensures
        run_after(p, seed, steps)->0.well_formed(),
        run_after(p, seed, steps)->0.complete_so_far(),
        run_after(p, seed, steps)->0.pipeline == p,
        run_after(p, seed, steps)->0.seed == seed,
    decreases steps.len(),
{
    if steps.len() == 0 {
        let v = begun(p, seed);
        lemma_running_none(v.states);
        law_seed_is_merged(p, seed);
    } else {
        law_every_point_of_a_run_is_well_formed(p, seed, steps.drop_last());
        let v = run_after(p, seed, steps.drop_last())->0;
        match steps.last() {
            Step::Start(i, _) => {
                law_steps_keep_a_run_well_formed(v, i, Seq::empty(), ErrorView::Io(Seq::empty()));
                law_no_output_is_lost(v, i, Seq::empty(), ErrorView::Io(Seq::empty()));
            },
            Step::Success(i, es) => {
                law_steps_keep_a_run_well_formed(v, i, es, ErrorView::Io(Seq::empty()));
                law_no_output_is_lost(v, i, es, ErrorView::Io(Seq::empty()));
            },
            Step::Failure(i, e) => {
                law_steps_keep_a_run_well_formed(v, i, Seq::empty(), e);
                law_no_output_is_lost(v, i, Seq::empty(), e);
            },
        }
    }
}

/// Every run ends: each stage starts once and ends once, so that a run has two
/// steps for each stage, and it is finished when they are made.
pub proof fn law_every_run_ends(p: PipelineView, seed: Seq<EntityView>, steps: Seq<Step>)
    requires
        run_after(p, seed, steps) is Some,
    ensures
        work(run_after(p, seed, steps)->0.states) + steps.len() == 2 * p.stages.len(),
        steps.len() <= 2 * p.stages.len(),
        run_after(p, seed, steps)->0.states.len() == p.stages.len(),
        p.stages.len() > 0 && steps.len() == 2 * p.stages.len() ==> run_after(
            p,
            seed,
            steps,
        )->0.finished(),
    decreases steps.len(),
{
    if steps.len() == 0 {
        lemma_work_of_waiting(begun(p, seed).states);
    } else {
        law_every_run_ends(p, seed, steps.drop_last());
        let v = run_after(p, seed, steps.drop_last())->0;
        let none = Seq::<EntityView>::empty();
        let io = ErrorView::Io(Seq::empty());
        match steps.last() {
            Step::Start(i, _) => law_every_step_leaves_less_work(v, i, none, io),
            Step::Success(i, es) => law_every_step_leaves_less_work(v, i, es, io),
            Step::Failure(i, e) => law_every_step_leaves_less_work(v, i, none, e),
        }
    }
    let end = run_after(p, seed, steps)->0;
    if p.stages.len() > 0 {
        law_every_step_leaves_less_work(end, 0, Seq::empty(), ErrorView::Io(Seq::empty()));
    }
}

/// The graph of a run is made of the seed and then the outputs of the stages,
/// in the order in which the stages ended.
pub proof fn law_a_run_merges_seed_and_outputs(
    p: PipelineView,
    seed: Seq<EntityView>,
    steps: Seq<Step>,
)
    requires
        run_after(p, seed, steps) is Some,
    ensures
        run_after(p, seed, steps)->0.graph == empty_graph().with_entities(seed + outputs(steps)),
    decreases steps.len(),
{
    if steps.len() == 0 {
        assert(seed + outputs(steps) == seed);
    } else {
        law_a_run_merges_seed_and_outputs(p, seed, steps.drop_last());
        let front = seed + outputs(steps.drop_last());
        law_batches_add_up(empty_graph(), front, steps.last().output());
        assert(front + steps.last().output() == seed + outputs(steps));
        assert(front + Seq::<EntityView>::empty() == front);
    }
}

/// A run fails if and only if a stage fails, and with the error of the stage
/// that failed first.
pub proof fn law_a_run_fails_with_its_first_failure(
    p: PipelineView,
    seed: Seq<EntityView>,
    steps: Seq<Step>,
)
    requires
        run_after(p, seed, steps) is Some,
    ensures
        run_after(p, seed, steps)->0.error == first_failure(steps),
    decreases steps.len(),
{
    if steps.len() > 0 {
        law_a_run_fails_with_its_first_failure(p, seed, steps.drop_last());
    }
}

/// A run can always go on until it is finished: there is a stage to start, or
/// one is running and will end.
pub proof fn law_a_run_can_always_go_on(p: PipelineView, seed: Seq<EntityView>, steps: Seq<Step>)
    requires
        runnable(p),
        run_after(p, seed, steps) is Some,
        !run_after(p, seed, steps)->0.finished(),
    ensures
        exists|step: Step| #[trigger] after_step(run_after(p, seed, steps)->0, step) is Some,
{
    let v = run_after(p, seed, steps)->0;
    law_every_point_of_a_run_is_well_formed(p, seed, steps);
    law_never_stuck(v);
    lemma_running_none(v.states);
    if running_count(v.states) > 0 {
        let i = choose|i: int| 0 <= i < v.states.len() && (#[trigger] v.states[i]) is Running;
        assert(after_step(v, Step::Success(i, Seq::empty())) is Some);
    } else {
        let i = choose|i: int| v.ready(i);
        assert(after_step(v, Step::Start(i, v.input_of(i))) is Some);
    }
}

/// How many stages have started and not ended.
pub open spec fn open_stages(steps: Seq<Step>) -> int
    decreases steps.len(),
{
    if steps.len() == 0 {
        0
    } else {
        open_stages(steps.drop_last()) + match steps.last() {
            Step::Start(_, _) => 1int,
            Step::Success(_, _) => -1int,
            Step::Failure(_, _) => -1int,
        }
    }
}

/// Whether a stage has started.
pub open spec fn has_started(steps: Seq<Step>, i: int) -> bool {
    exists|k: int|
        0 <= k < steps.len() && (#[trigger] steps[k] matches Step::Start(a, _) && a == i)
}

/// Whether a stage has ended, well or not.
pub open spec fn has_ended(steps: Seq<Step>, i: int) -> bool {
    exists|k: int|
        0 <= k < steps.len() && match #[trigger] steps[k] {
            Step::Success(a, _) => a == i,
            Step::Failure(a, _) => a == i,
            _ => false,
        }
}

proof fn lemma_one_more_step(steps: Seq<Step>, i: int)
    requires
        steps.len() > 0,
    ensures
        has_started(steps, i) <==> has_started(steps.drop_last(), i) || (steps.last() matches Step::Start(
            a,
            _,
        ) && a == i),
        has_ended(steps, i) <==> has_ended(steps.drop_last(), i) || match steps.last() {
            Step::Success(a, _) => a == i,
            Step::Failure(a, _) => a == i,
            _ => false,
        },
{
    let front = steps.drop_last();
    assert forall|k: int| 0 <= k < front.len() implies front[k] == #[trigger] steps[k] by {}
    if has_started(front, i) {
        let k = choose|k: int|
            0 <= k < front.len() && (#[trigger] front[k] matches Step::Start(a, _) && a == i);
        assert(steps[k] == front[k]);
    }
    if has_started(steps, i) {
        let k = choose|k: int|
            0 <= k < steps.len() && (#[trigger] steps[k] matches Step::Start(a, _) && a == i);
        if k < front.len() {
            assert(steps[k] == front[k]);
        }
    }
    if has_ended(front, i) {
        let k = choose|k: int|
            0 <= k < front.len() && match #[trigger] front[k] {
                Step::Success(a, _) => a == i,
                Step::Failure(a, _) => a == i,
                _ => false,
            };
        assert(steps[k] == front[k]);
    }
    if has_ended(steps, i) {
        let k = choose|k: int|
            0 <= k < steps.len() && match #[trigger] steps[k] {
                Step::Success(a, _) => a == i,
                Step::Failure(a, _) => a == i,
                _ => false,
            };
        if k < front.len() {
            assert(steps[k] == front[k]);
        }
    }
    let last = steps.len() - 1;
    assert(steps[last] == steps.last());
}

/// The states of a run say which steps were made.
proof fn lemma_states_tell_steps(p: PipelineView, seed: Seq<EntityView>, steps: Seq<Step>, i: int)
    requires
        run_after(p, seed, steps) is Some,
        0 <= i < p.stages.len(),
    ensures
        ({
            let v = run_after(p, seed, steps)->0;
            &&& v.pipeline == p
            &&& v.seed == seed
            &&& v.states.len() == p.stages.len()
            &&& has_started(steps, i) <==> !(v.states[i] is Waiting)
            &&& has_ended(steps, i) <==> v.states[i] is Done
        }),
    decreases steps.len(),
{
    if steps.len() > 0 {
        lemma_states_tell_steps(p, seed, steps.drop_last(), i);
        lemma_one_more_step(steps, i);
    }
}

proof fn lemma_open_stages_run(p: PipelineView, seed: Seq<EntityView>, steps: Seq<Step>)
    requires
        run_after(p, seed, steps) is Some,
    ensures
        running_count(run_after(p, seed, steps)->0.states) == open_stages(steps),
        running_count(run_after(p, seed, steps)->0.states) <= run_after(p, seed, steps)->0.limit(),
        run_after(p, seed, steps)->0.pipeline == p,
    decreases steps.len(),
{
    if steps.len() == 0 {
        lemma_running_none(begun(p, seed).states);
    } else {
        lemma_open_stages_run(p, seed, steps.drop_last());
        let v = run_after(p, seed, steps.drop_last())->0;
        match steps.last() {
            Step::Start(i, _) => lemma_running_update(v.states, i, StageStateView::Running),
            Step::Success(i, es) => lemma_running_update(v.states, i, StageStateView::Done(es)),
            Step::Failure(i, _) => lemma_running_update(
                v.states,
                i,
                StageStateView::Done(Seq::empty()),
            ),
        }
    }
}

proof fn lemma_a_run_has_all_its_beginnings(
    p: PipelineView,
    seed: Seq<EntityView>,
    steps: Seq<Step>,
    n: int,
)
    requires
        run_after(p, seed, steps) is Some,
        0 <= n <= steps.len(),
    ensures
        run_after(p, seed, steps.take(n)) is Some,
        n < steps.len() ==> after_step(run_after(p, seed, steps.take(n))->0, steps[n]) is Some,
    decreases steps.len(),
{
    if n == steps.len() {
        assert(steps.take(n) == steps);
    } else if n == steps.len() - 1 {
        assert(steps.take(n) == steps.drop_last());
    } else {
        lemma_a_run_has_all_its_beginnings(p, seed, steps.drop_last(), n);
        assert(steps.drop_last().take(n) == steps.take(n));
        assert(steps.drop_last()[n] == steps[n]);
    }
}

/// What a stage ended with is still there whatever steps follow.
proof fn lemma_result_is_kept(
    p: PipelineView,
    seed: Seq<EntityView>,
    steps: Seq<Step>,
    a: int,
    j: int,
)
    requires
        run_after(p, seed, steps) is Some,
        0 <= a < steps.len(),
        0 <= j < p.stages.len(),
    ensures
        steps[a] matches Step::Success(k, es) && k == j ==> run_after(p, seed, steps)->0.states[j]
            == StageStateView::Done(steps[a]->Success_1),
        steps[a] matches Step::Failure(k, e) && k == j ==> run_after(p, seed, steps)->0.states[j]
            == StageStateView::Done(Seq::empty()),
    decreases steps.len(),
{
    lemma_states_tell_steps(p, seed, steps.drop_last(), j);
    if a < steps.len() - 1 {
        assert(steps.drop_last()[a] == steps[a]);
        lemma_result_is_kept(p, seed, steps.drop_last(), a, j);
    }
}

/// In every run, a stage whose input is another stage is started with exactly
/// what that stage ended with: as many entities, and the same at every place.
pub proof fn law_a_stage_is_given_all_that_its_input_stage_found(
    p: PipelineView,
    seed: Seq<EntityView>,
    steps: Seq<Step>,
    a: int,
    b: int,
)
    requires
        p.names().no_duplicates(),
        run_after(p, seed, steps) is Some,
        0 <= a < steps.len(),
        0 <= b < steps.len(),
        steps[a] is Success,
        steps[b] is Start,
        p.stages[steps[b]->Start_0].input == p.stages[steps[a]->Success_0].name,
        p.stages[steps[b]->Start_0].input != "seed"@,
    ensures
        a < b,
        steps[b]->Start_1.len() == steps[a]->Success_1.len(),
        forall|k: int|
            0 <= k < steps[a]->Success_1.len() ==> #[trigger] steps[b]->Start_1[k]
                == steps[a]->Success_1[k],
        steps[b]->Start_1 == steps[a]->Success_1,
{
    let i = steps[b]->Start_0;
    let j = steps[a]->Success_0;
    lemma_a_run_has_all_its_beginnings(p, seed, steps, a);
    lemma_a_run_has_all_its_beginnings(p, seed, steps, b);
    let v = run_after(p, seed, steps.take(b))->0;
    lemma_stages_of_a_step(p, seed, steps, a);
    lemma_stages_of_a_step(p, seed, steps, b);
    lemma_input_stage(p, i, j);
    assert(p.waits_for(i, j));
    lemma_states_tell_steps(p, seed, steps.take(b), j);
    assert(v.states[j] is Done);
    lemma_ended_once(p, seed, steps, a, b, j);
    assert(steps.take(b)[a] == steps[a]);
    lemma_result_is_kept(p, seed, steps.take(b), a, j);
}

/// In every run, a stage whose input stage failed is started with nothing.
pub proof fn law_a_stage_is_given_nothing_by_a_stage_that_failed(
    p: PipelineView,
    seed: Seq<EntityView>,
    steps: Seq<Step>,
    a: int,
    b: int,
)
    requires
        p.names().no_duplicates(),
        run_after(p, seed, steps) is Some,
        0 <= a < steps.len(),
        0 <= b < steps.len(),
        steps[a] is Failure,
        steps[b] is Start,
        p.stages[steps[b]->Start_0].input == p.stages[steps[a]->Failure_0].name,
        p.stages[steps[b]->Start_0].input != "seed"@,
    ensures
        a < b,
        steps[b]->Start_1.len() == 0,
{
    let i = steps[b]->Start_0;
    let j = steps[a]->Failure_0;
    lemma_a_run_has_all_its_beginnings(p, seed, steps, a);
    lemma_a_run_has_all_its_beginnings(p, seed, steps, b);
    let v = run_after(p, seed, steps.take(b))->0;
    lemma_stages_of_a_step(p, seed, steps, a);
    lemma_stages_of_a_step(p, seed, steps, b);
    lemma_input_stage(p, i, j);
    assert(p.waits_for(i, j));
    lemma_states_tell_steps(p, seed, steps.take(b), j);
    assert(v.states[j] is Done);
    lemma_ended_once(p, seed, steps, a, b, j);
    assert(steps.take(b)[a] == steps[a]);
    lemma_result_is_kept(p, seed, steps.take(b), a, j);
}

/// In every run, a stage whose input is the seed is started with the seed.
pub proof fn law_a_stage_on_the_seed_is_given_the_seed(
    p: PipelineView,
    seed: Seq<EntityView>,
    steps: Seq<Step>,
    b: int,
)
    requires
        run_after(p, seed, steps) is Some,
        0 <= b < steps.len(),
        steps[b] is Start,
        p.stages[steps[b]->Start_0].input == "seed"@,
    ensures
        steps[b]->Start_1 == seed,
{
    lemma_a_run_has_all_its_beginnings(p, seed, steps, b);
    lemma_stages_of_a_step(p, seed, steps, b);
    lemma_states_tell_steps(p, seed, steps.take(b), steps[b]->Start_0);
}

proof fn lemma_stages_of_a_step(p: PipelineView, seed: Seq<EntityView>, steps: Seq<Step>, k: int)
    requires
        run_after(p, seed, steps) is Some,
        0 <= k < steps.len(),
    ensures
        match steps[k] {
            Step::Start(i, _) => 0 <= i < p.stages.len(),
            Step::Success(i, _) => 0 <= i < p.stages.len(),
            Step::Failure(i, _) => 0 <= i < p.stages.len(),
        },
{
    lemma_a_run_has_all_its_beginnings(p, seed, steps, k);
    law_every_run_ends(p, seed, steps.take(k));
}

proof fn lemma_input_stage(p: PipelineView, i: int, j: int)
    requires
        p.names().no_duplicates(),
        0 <= i < p.stages.len(),
        0 <= j < p.stages.len(),
        p.stages[i].input == p.stages[j].name,
        p.stages[i].input != "seed"@,
    ensures
        p.input_stage(i) == Some(j),
{
    lemma_first_at(p.names(), p.stages[i].input);
    assert(p.names()[j] == p.stages[j].name);
    assert(p.names().contains(p.stages[j].name));
}

/// A stage that has ended before a point of a run does not end after it.
proof fn lemma_ended_once(
    p: PipelineView,
    seed: Seq<EntityView>,
    steps: Seq<Step>,
    a: int,
    b: int,
    j: int,
)
    requires
        run_after(p, seed, steps) is Some,
        0 <= a < steps.len(),
        0 <= b < steps.len(),
        a != b,
        0 <= j < p.stages.len(),
        has_ended(steps.take(b), j),
        match steps[a] {
            Step::Success(k, _) => k == j,
            Step::Failure(k, _) => k == j,
            _ => false,
        },
    ensures
        a < b,
{
    if a > b {
        lemma_a_run_has_all_its_beginnings(p, seed, steps, a);
        lemma_states_tell_steps(p, seed, steps.take(a), j);
        let k = choose|k: int|
            0 <= k < steps.take(b).len() && match #[trigger] steps.take(b)[k] {
                Step::Success(m, _) => m == j,
                Step::Failure(m, _) => m == j,
                _ => false,
            };
        assert(steps.take(a)[k] == steps.take(b)[k]);
        assert(has_ended(steps.take(a), j));
    }
}

/// In every run, a stage starts only when every stage that it names, as its
/// input or as a dependency, has ended.
pub proof fn law_a_stage_starts_after_those_it_names(
    p: PipelineView,
    seed: Seq<EntityView>,
    steps: Seq<Step>,
    b: int,
    j: int,
)
    requires
        p.names().no_duplicates(),
        run_after(p, seed, steps) is Some,
        0 <= b < steps.len(),
        steps[b] is Start,
        0 <= j < p.stages.len(),
        p.stages[j].name != "seed"@,
        p.stages[steps[b]->Start_0].input == p.stages[j].name
            || p.stages[steps[b]->Start_0].depends_on.contains(p.stages[j].name),
    ensures
        has_ended(steps.take(b), j),
{
    let i = steps[b]->Start_0;
    let s = p.stages[i];
    let name = p.stages[j].name;
    lemma_a_run_has_all_its_beginnings(p, seed, steps, b);
    lemma_stages_of_a_step(p, seed, steps, b);
    lemma_states_tell_steps(p, seed, steps.take(b), j);
    lemma_first_at(p.names(), name);
    assert(p.names()[j] == name);
    assert(p.names().contains(name));
    assert(p.stage_at(name) == Some(j));
    if s.input != name {
        let k = s.depends_on.index_of(name);
        assert(p.extra_is(i, k, j));
    }
    assert(p.waits_for(i, j));
}

/// A stage may start as soon as the stages that it names have ended, if fewer
/// stages are running than may.
pub proof fn law_a_stage_may_start_when_those_it_names_have_ended(
    p: PipelineView,
    seed: Seq<EntityView>,
    steps: Seq<Step>,
    i: int,
)
    requires
        run_after(p, seed, steps) is Some,
        0 <= i < p.stages.len(),
        !has_started(steps, i),
        forall|j: int|
            0 <= j < p.stages.len() && (p.stages[i].input == (#[trigger] p.stages[j]).name
                || p.stages[i].depends_on.contains(p.stages[j].name)) ==> has_ended(steps, j),
        open_stages(steps) < p.concurrency || open_stages(steps) < 1,
    ensures
        run_after(p, seed, steps)->0.ready(i),
        exists|input: Seq<EntityView>|
            #[trigger] after_step(run_after(p, seed, steps)->0, Step::Start(i, input)) is Some,
{
    let v = run_after(p, seed, steps)->0;
    lemma_states_tell_steps(p, seed, steps, i);
    lemma_open_stages_run(p, seed, steps);
    assert forall|j: int| #[trigger] v.pipeline.waits_for(i, j) implies v.states[j] is Done by {
        lemma_waits_are_dependencies(p, i, j);
        if p.input_stage(i) == Some(j) {
            lemma_first_at(p.names(), p.stages[i].input);
            assert(p.names()[j] == p.stages[j].name);
        } else {
            let k = choose|k: int| p.extra_is(i, k, j);
            lemma_first_at(p.names(), p.stages[i].depends_on[k]);
            assert(p.names()[j] == p.stages[j].name);
            assert(p.stages[i].depends_on.contains(p.stages[j].name));
        }
        assert(has_ended(steps, j));
        lemma_states_tell_steps(p, seed, steps, j);
    }
    assert(v.ready(i));
    assert(after_step(v, Step::Start(i, v.input_of(i))) is Some);
}

/// At no point of a run are more stages running than the pipeline allows; a
/// pipeline that allows none is run one stage at a time.
pub proof fn law_no_more_stages_run_than_allowed(
    p: PipelineView,
    seed: Seq<EntityView>,
    steps: Seq<Step>,
)
    requires
        run_after(p, seed, steps) is Some,
    ensures
        0 <= open_stages(steps),
        open_stages(steps) <= p.concurrency || open_stages(steps) <= 1,
{
    lemma_open_stages_run(p, seed, steps);
}

/// In every run each stage starts at most once, and ends only once it has
/// started and at most once.
pub proof fn law_a_stage_starts_and_ends_once(
    p: PipelineView,
    seed: Seq<EntityView>,
    steps: Seq<Step>,
    b: int,
)
    requires
        run_after(p, seed, steps) is Some,
        0 <= b < steps.len(),
    ensures
        match steps[b] {
            Step::Start(i, _) => !has_started(steps.take(b), i),
            Step::Success(i, _) => has_started(steps.take(b), i) && !has_ended(steps.take(b), i),
            Step::Failure(i, _) => has_started(steps.take(b), i) && !has_ended(steps.take(b), i),
        },
{
    lemma_a_run_has_all_its_beginnings(p, seed, steps, b);
    lemma_stages_of_a_step(p, seed, steps, b);
    match steps[b] {
        Step::Start(i, _) => lemma_states_tell_steps(p, seed, steps.take(b), i),
        Step::Success(i, _) => lemma_states_tell_steps(p, seed, steps.take(b), i),
        Step::Failure(i, _) => lemma_states_tell_steps(p, seed, steps.take(b), i),
    }
}

/// A run is finished if and only if every stage has started and ended.
pub proof fn law_a_run_is_finished_when_every_stage_has_ended(
    p: PipelineView,
    seed: Seq<EntityView>,
    steps: Seq<Step>,
)
    requires
        run_after(p, seed, steps) is Some,
    ensures
        run_after(p, seed, steps)->0.finished() <==> forall|i: int|
            0 <= i < p.stages.len() ==> #[trigger] has_ended(steps, i),
{
    let v = run_after(p, seed, steps)->0;
    law_every_run_ends(p, seed, steps);
    if v.finished() {
        assert forall|i: int| 0 <= i < p.stages.len() implies #[trigger] has_ended(steps, i) by {
            lemma_states_tell_steps(p, seed, steps, i);
            assert(v.states[i] is Done);
        }
    }
    if forall|i: int| 0 <= i < p.stages.len() ==> #[trigger] has_ended(steps, i) {
        assert forall|i: int| 0 <= i < v.states.len() implies (#[trigger] v.states[i]) is Done by {
            assert(has_ended(steps, i));
            lemma_states_tell_steps(p, seed, steps, i);
        }
    }
}

/// What a run ends with is the graph of the seed and of all that its stages
/// found, in the order in which they ended, or the error of the stage that
/// failed first.
pub proof fn law_a_run_ends_with_all_that_was_found(
    run: Execution,
    r: Result<EntityGraph, Error>,
)
    requires
        run.wf(),
        call_ensures(Execution::finish, (run,), r),
    ensures
        match first_failure(run.steps()) {
            Some(e) => r is Err && r->Err_0@ == e,
            None => r is Ok && r->Ok_0@ == empty_graph().with_entities(
                run@.seed + outputs(run.steps()),
            ),
        },
{
    run.law_every_run_is_well_formed();
    law_a_run_merges_seed_and_outputs(run@.pipeline, run@.seed, run.steps());
    law_a_run_fails_with_its_first_failure(run@.pipeline, run@.seed, run.steps());
}

} // verus!
