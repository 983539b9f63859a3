use std::cell::RefCell;
use std::rc::Rc;

use explorator::engine::{
    after_attempt, Action, Attempt, Execution, ExecutionEngine, Retry, StageOutcome, StageRun,
};
use explorator::entity::{Entity, EntityType, RelationKind};
use explorator::error::Error;
use explorator::graph::EntityGraph;
use explorator::pipeline::{PipelineDef, StageDef};
use explorator::plugin::{PluginRegistry, ReconPlugin};

type MockBehavior = Rc<dyn Fn(Vec<Entity>) -> Result<Vec<Entity>, Error>>;

/// Runs an arbitrary closure instead of a real recon tool. A slow plugin
/// exceeds any timeout.
struct MockPlugin {
    name: &'static str,
    behavior: MockBehavior,
    slow: bool,
}

impl MockPlugin {
    fn new(
        name: &'static str,
        behavior: impl Fn(Vec<Entity>) -> Result<Vec<Entity>, Error> + 'static,
    ) -> Self {
        Self { name, behavior: Rc::new(behavior), slow: false }
    }
}

impl ReconPlugin for MockPlugin {
    fn name(&self) -> &str {
        self.name
    }

    fn required_binary(&self) -> &str {
        "mock"
    }

    fn input_types(&self) -> Vec<EntityType> {
        vec![]
    }

    fn output_types(&self) -> Vec<EntityType> {
        vec![]
    }

    fn is_available(&self, _found_on_path: bool) -> bool {
        true
    }
}

fn run_stage(plugin: &MockPlugin, stage: &StageDef, input: Vec<Entity>) -> Result<StageOutcome, Error> {
    let mut run = StageRun::new(stage);
    loop {
        let ended = if plugin.slow && stage.timeout_secs.is_some() {
            Attempt::TimedOut
        } else {
            Attempt::Finished((plugin.behavior)(input.clone()))
        };
        if let Retry::Return(result) = run.attempt_ended(ended) {
            return result;
        }
    }
}

/// Runs a pipeline one stage after the other.
fn execute(
    plugins: Vec<MockPlugin>,
    pipeline: &PipelineDef,
    seed: Vec<Entity>,
) -> Result<EntityGraph, Error> {
    let mut registry = PluginRegistry::new();
    for plugin in plugins {
        registry.register(plugin);
    }
    let engine = ExecutionEngine::new(registry);
    assert!(pipeline.within_limits());
    engine.prepare(pipeline)?;
    let mut run = Execution::start(pipeline, seed);
    loop {
        match run.next() {
            Action::Start { stage, input } => {
                let def = &pipeline.stages[stage];
                let plugin = engine.registry.get(&def.plugin)?;
                let result = run_stage(plugin, def, input);
                if let Ok(outcome) = &result {
                    assert_eq!(outcome.stage, def.name);
                    assert!(run.has_room_for(&outcome.entities));
                }
                run.complete(stage, result);
            }
            Action::Wait => panic!("nothing is running"),
            Action::Finished => return run.finish(),
        }
    }
}

fn seed_domain(value: &str) -> Vec<Entity> {
    vec![Entity::new(EntityType::Domain, value, "seed")]
}

#[test]
fn independent_stages_run_and_merge_into_one_graph() {
    let toml_str = r#"
        [pipeline]
        name = "parallel-test"
        concurrency = 4

        [[pipeline.stages]]
        name = "a"
        plugin = "mock-a"
        input = "seed"

        [[pipeline.stages]]
        name = "b"
        plugin = "mock-b"
        input = "seed"
    "#;
    let pipeline = PipelineDef::parse(toml_str, "").unwrap();

    let plugin_a = MockPlugin::new("mock-a", |input| {
        let parent = &input[0];
        Ok(vec![Entity::new(EntityType::Subdomain, "from-a.example.com", "mock-a")
            .with_relation(parent.id, RelationKind::DiscoveredFrom)])
    });
    let plugin_b = MockPlugin::new("mock-b", |input| {
        let parent = &input[0];
        Ok(vec![Entity::new(EntityType::Subdomain, "from-b.example.com", "mock-b")
            .with_relation(parent.id, RelationKind::DiscoveredFrom)])
    });

    let graph = execute(vec![plugin_a, plugin_b], &pipeline, seed_domain("example.com"))
        .ok()
        .expect("execution should succeed");

    // seed + 2 subdomains
    assert_eq!(graph.len(), 3);
    assert!(graph.find_by_value(EntityType::Subdomain, "from-a.example.com").is_some());
    assert!(graph.find_by_value(EntityType::Subdomain, "from-b.example.com").is_some());
}

#[test]
fn dependent_stage_receives_upstream_output_as_input() {
    let toml_str = r#"
        [pipeline]
        name = "dependency-test"

        [[pipeline.stages]]
        name = "subdomains"
        plugin = "mock-subfinder"
        input = "seed"

        [[pipeline.stages]]
        name = "resolve"
        plugin = "mock-dnsx"
        input = "subdomains"
    "#;
    let pipeline = PipelineDef::parse(toml_str, "").unwrap();

    let subfinder = MockPlugin::new("mock-subfinder", |input| {
        let domain = &input[0];
        Ok(vec![Entity::new(EntityType::Subdomain, "www.example.com", "mock-subfinder")
            .with_relation(domain.id, RelationKind::DiscoveredFrom)])
    });
    let dnsx = MockPlugin::new("mock-dnsx", |input| {
        assert_eq!(input.len(), 1);
        assert_eq!(input[0].value, "www.example.com");
        let sub = &input[0];
        let ip = Entity::new(EntityType::IpAddress, "203.0.113.5", "mock-dnsx");
        let updated_sub = Entity::new(sub.entity_type, &sub.value, "mock-dnsx")
            .with_relation(ip.id, RelationKind::ResolvesTo);
        Ok(vec![ip, updated_sub])
    });

    let graph = execute(vec![subfinder, dnsx], &pipeline, seed_domain("example.com"))
        .ok()
        .expect("execution should succeed");

    let ip = graph
        .find_by_value(EntityType::IpAddress, "203.0.113.5")
        .expect("ip address entity should exist");
    let subdomain = graph
        .find_by_value(EntityType::Subdomain, "www.example.com")
        .expect("subdomain entity should exist");

    let relations = graph.relations_of(subdomain.id);
    assert_eq!(relations.len(), 2);
    let resolves_to = relations
        .iter()
        .find(|(kind, _)| matches!(kind, RelationKind::ResolvesTo))
        .expect("subdomain should have a resolves_to relation");
    assert_eq!(resolves_to.1.id, ip.id);
}

#[test]
fn depends_on_enforces_ordering_without_supplying_input() {
    let toml_str = r#"
        [pipeline]
        name = "ordering-test"
        concurrency = 4

        [[pipeline.stages]]
        name = "first"
        plugin = "mock-first"
        input = "seed"

        [[pipeline.stages]]
        name = "second"
        plugin = "mock-second"
        input = "seed"
        depends_on = ["first"]
    "#;
    let pipeline = PipelineDef::parse(toml_str, "").unwrap();

    let order = Rc::new(RefCell::new(Vec::<&'static str>::new()));
    let order_first = Rc::clone(&order);
    let first = MockPlugin::new("mock-first", move |_input| {
        order_first.borrow_mut().push("first");
        Ok(vec![])
    });
    let order_second = Rc::clone(&order);
    let second = MockPlugin::new("mock-second", move |input| {
        order_second.borrow_mut().push("second");
        assert_eq!(input.len(), 1);
        Ok(vec![])
    });

    execute(vec![first, second], &pipeline, seed_domain("example.com"))
        .ok()
        .expect("execution should succeed");

    assert_eq!(*order.borrow(), vec!["first", "second"]);
}

#[test]
fn a_stage_waits_while_its_dependency_runs() {
    let toml_str = r#"
        [pipeline]
        name = "waiting"
        concurrency = 4

        [[pipeline.stages]]
        name = "first"
        plugin = "p"
        input = "seed"

        [[pipeline.stages]]
        name = "second"
        plugin = "p"
        input = "seed"
        depends_on = ["first"]
    "#;
    let pipeline = PipelineDef::parse(toml_str, "").unwrap();
    let mut run = Execution::start(&pipeline, seed_domain("example.com"));
    assert_eq!(start_of(run.next()), (0, 1));
    assert!(matches!(run.next(), Action::Wait), "the first stage is still running");
    run.complete(0, outcome(&["u", "v"]));
    assert_eq!(start_of(run.next()), (1, 1), "the input is still the seed");
    run.complete(1, outcome(&[]));
    assert!(matches!(run.next(), Action::Finished));
    assert!(run.finish().is_ok());
}

#[test]
fn a_dependency_on_the_seed_counts_as_met() {
    let toml_str = r#"
        [pipeline]
        name = "seed-dependency"

        [[pipeline.stages]]
        name = "a"
        plugin = "p"
        input = "seed"

        [[pipeline.stages]]
        name = "b"
        plugin = "p"
        input = "a"
        depends_on = ["seed"]
    "#;
    let pipeline = PipelineDef::parse(toml_str, "").unwrap();
    let p = MockPlugin::new("p", |input| {
        assert_eq!(input.len(), 1);
        Ok(vec![Entity::new(EntityType::Url, "http://a", "p")])
    });
    let graph = execute(vec![p], &pipeline, seed_domain("example.com")).ok().unwrap();
    assert_eq!(graph.len(), 2);
}

#[test]
fn the_order_of_stages_in_the_file_does_not_matter() {
    let toml_str = r#"
        [pipeline]
        name = "reversed"

        [[pipeline.stages]]
        name = "last"
        plugin = "p"
        input = "middle"

        [[pipeline.stages]]
        name = "middle"
        plugin = "p"
        input = "seed"
        depends_on = ["first"]

        [[pipeline.stages]]
        name = "first"
        plugin = "p"
        input = "seed"
    "#;
    let pipeline = PipelineDef::parse(toml_str, "").unwrap();
    let mut run = Execution::start(&pipeline, seed_domain("example.com"));
    let mut order = Vec::new();
    while let Action::Start { stage, .. } = run.next() {
        order.push(pipeline.stages[stage].name.as_str());
        run.complete(stage, outcome(&[]));
    }
    assert_eq!(order, vec!["first", "middle", "last"]);
    assert!(run.finish().is_ok());
}

#[test]
fn cyclic_dependencies_are_rejected() {
    let toml_str = r#"
        [pipeline]
        name = "cycle-test"

        [[pipeline.stages]]
        name = "a"
        plugin = "mock-a"
        input = "seed"
        depends_on = ["b"]

        [[pipeline.stages]]
        name = "b"
        plugin = "mock-b"
        input = "seed"
        depends_on = ["a"]
    "#;
    let pipeline = PipelineDef::parse(toml_str, "").unwrap();

    let a = MockPlugin::new("mock-a", |_| Ok(vec![]));
    let b = MockPlugin::new("mock-b", |_| Ok(vec![]));
    let result = execute(vec![a, b], &pipeline, seed_domain("example.com"));
    match result {
        Err(Error::InvalidPipeline(m)) => {
            assert!(m == "dependency cycle detected at stage 'a'" || m == "dependency cycle detected at stage 'b'")
        }
        _ => panic!("expected an invalid pipeline"),
    }
}

#[test]
fn a_stage_that_waits_for_itself_is_rejected() {
    let toml_str = r#"
        [pipeline]
        name = "self-test"

        [[pipeline.stages]]
        name = "first"
        plugin = "mock-a"
        input = "seed"

        [[pipeline.stages]]
        name = "me"
        plugin = "mock-a"
        input = "me"
    "#;
    let pipeline = PipelineDef::parse(toml_str, "").unwrap();
    let a = MockPlugin::new("mock-a", |_| Ok(vec![]));
    match execute(vec![a], &pipeline, vec![]) {
        Err(e) => assert_eq!(
            e.to_string(),
            "invalid pipeline definition: dependency cycle detected at stage 'me'"
        ),
        Ok(_) => panic!("expected an invalid pipeline"),
    }
}

#[test]
fn unknown_plugin_reference_is_rejected() {
    let toml_str = r#"
        [pipeline]
        name = "missing-plugin-test"

        [[pipeline.stages]]
        name = "only"
        plugin = "does-not-exist"
        input = "seed"
    "#;
    let pipeline = PipelineDef::parse(toml_str, "").unwrap();
    let result = execute(vec![], &pipeline, seed_domain("example.com"));
    assert!(matches!(result, Err(Error::UnknownPlugin(_))));
}

#[test]
fn stage_retries_on_failure_and_eventually_succeeds() {
    let toml_str = r#"
        [pipeline]
        name = "retry-test"

        [[pipeline.stages]]
        name = "flaky"
        plugin = "mock-flaky"
        input = "seed"
        retries = 2
    "#;
    let pipeline = PipelineDef::parse(toml_str, "").unwrap();

    let attempts = Rc::new(RefCell::new(0usize));
    let attempts_clone = Rc::clone(&attempts);
    let flaky = MockPlugin::new("mock-flaky", move |_input| {
        *attempts_clone.borrow_mut() += 1;
        let n = *attempts_clone.borrow();
        if n < 3 {
            Err(Error::PluginExecution {
                plugin: "mock-flaky".into(),
                message: format!("attempt {n} failed"),
            })
        } else {
            Ok(vec![Entity::new(EntityType::Subdomain, "recovered.example.com", "mock-flaky")])
        }
    });

    let graph = execute(vec![flaky], &pipeline, seed_domain("example.com"))
        .ok()
        .expect("should eventually succeed after retries");

    assert_eq!(*attempts.borrow(), 3);
    assert!(graph.find_by_value(EntityType::Subdomain, "recovered.example.com").is_some());
}

#[test]
fn stage_exceeding_timeout_fails_the_pipeline() {
    let toml_str = r#"
        [pipeline]
        name = "timeout-test"

        [[pipeline.stages]]
        name = "slow"
        plugin = "mock-slow"
        input = "seed"
        timeout_secs = 1
    "#;
    let pipeline = PipelineDef::parse(toml_str, "").unwrap();

    let mut slow = MockPlugin::new("mock-slow", |_input| Ok(vec![]));
    slow.slow = true;
    let result = execute(vec![slow], &pipeline, seed_domain("example.com"));
    match result {
        Err(Error::Timeout { stage, secs }) => {
            assert_eq!(stage, "slow");
            assert_eq!(secs, 1);
        }
        _ => panic!("expected a timeout"),
    }
}

#[test]
fn a_failed_stage_hands_on_nothing_and_its_error_comes_first() {
    let toml_str = r#"
        [pipeline]
        name = "failure-test"

        [[pipeline.stages]]
        name = "bad"
        plugin = "mock-bad"
        input = "seed"

        [[pipeline.stages]]
        name = "after"
        plugin = "mock-after"
        input = "bad"
    "#;
    let pipeline = PipelineDef::parse(toml_str, "").unwrap();
    let bad = MockPlugin::new("mock-bad", |_| Err(Error::Io("first".to_string())));
    let after = MockPlugin::new("mock-after", |input| {
        assert!(input.is_empty());
        Err(Error::Io("second".to_string()))
    });
    match execute(vec![bad, after], &pipeline, seed_domain("example.com")) {
        Err(Error::Io(m)) => assert_eq!(m, "first"),
        _ => panic!("expected the first error"),
    }
}

const DIAMOND: &str = r#"
        [pipeline]
        name = "diamond"
        concurrency = 2

        [[pipeline.stages]]
        name = "a"
        plugin = "p"
        input = "seed"

        [[pipeline.stages]]
        name = "b"
        plugin = "p"
        input = "a"

        [[pipeline.stages]]
        name = "c"
        plugin = "p"
        input = "a"

        [[pipeline.stages]]
        name = "d"
        plugin = "p"
        input = "b"
        depends_on = ["c"]

        [[pipeline.stages]]
        name = "e"
        plugin = "p"
        input = "seed"
    "#;

fn start_of(action: Action) -> (usize, usize) {
    match action {
        Action::Start { stage, input } => (stage, input.len()),
        Action::Wait => panic!("told to wait"),
        Action::Finished => panic!("told to finish"),
    }
}

fn outcome(values: &[&str]) -> Result<StageOutcome, Error> {
    Ok(StageOutcome {
        stage: "x".to_string(),
        entities: values.iter().map(|v| Entity::new(EntityType::Url, v, "x")).collect(),
    })
}

#[test]
fn no_more_stages_run_than_the_limit_allows() {
    let pipeline = PipelineDef::parse(DIAMOND, "").unwrap();
    let mut run = Execution::start(&pipeline, seed_domain("example.com"));
    assert_eq!(start_of(run.next()), (0, 1));
    assert_eq!(start_of(run.next()), (4, 1));
    assert!(matches!(run.next(), Action::Wait));
    run.complete(4, outcome(&[]));
    assert!(matches!(run.next(), Action::Wait));
    run.complete(0, outcome(&["u", "v"]));
    assert_eq!(start_of(run.next()), (1, 2));
    assert_eq!(start_of(run.next()), (2, 2));
    run.complete(1, outcome(&["w"]));
    assert!(matches!(run.next(), Action::Wait));
    run.complete(2, Err(Error::Io("broken".to_string())));
    assert_eq!(start_of(run.next()), (3, 1));
    run.complete(3, outcome(&[]));
    assert!(matches!(run.next(), Action::Finished));
    match run.finish() {
        Err(Error::Io(m)) => assert_eq!(m, "broken"),
        _ => panic!("expected the error"),
    }
}

#[test]
fn a_limit_of_zero_is_one() {
    let mut pipeline = PipelineDef::parse(DIAMOND, "").unwrap();
    pipeline.concurrency = 0;
    let mut run = Execution::start(&pipeline, vec![]);
    assert_eq!(start_of(run.next()), (0, 0));
    assert!(matches!(run.next(), Action::Wait));
}

#[test]
fn pauses_double_up_to_a_limit() {
    let mut stage = PipelineDef::parse(DIAMOND, "").unwrap().stages[0].clone();
    stage.retries = 7;
    let pauses: Vec<u64> = (1..=7)
        .map(|n| match after_attempt(&stage, n, Attempt::Finished(Err(Error::Io(String::new())))) {
            Retry::Backoff(ms) => ms,
            Retry::Return(_) => panic!("gave up"),
        })
        .collect();
    assert_eq!(pauses, vec![200, 400, 800, 1600, 3200, 3200, 3200]);
    assert!(matches!(
        after_attempt(&stage, 8, Attempt::Finished(Err(Error::Io(String::new())))),
        Retry::Return(Err(Error::Io(_)))
    ));
}

fn failed(message: &str) -> Attempt {
    Attempt::Finished(Err(Error::Io(message.to_string())))
}

#[test]
fn a_stage_ends_at_the_first_success_or_the_last_attempt() {
    let mut stage = PipelineDef::parse(DIAMOND, "").unwrap().stages[0].clone();
    stage.retries = 2;
    stage.timeout_secs = Some(9);

    let mut lucky = StageRun::new(&stage);
    assert!(matches!(lucky.attempt_ended(failed("one")), Retry::Backoff(200)));
    match lucky.attempt_ended(Attempt::Finished(Ok(seed_domain("x.com")))) {
        Retry::Return(Ok(outcome)) => {
            assert_eq!(outcome.stage, stage.name);
            assert_eq!(outcome.entities[0].value, "x.com");
        }
        _ => panic!("the attempt succeeded"),
    }

    let mut unlucky = StageRun::new(&stage);
    assert!(matches!(unlucky.attempt_ended(failed("one")), Retry::Backoff(200)));
    assert!(matches!(unlucky.attempt_ended(Attempt::TimedOut), Retry::Backoff(400)));
    match unlucky.attempt_ended(failed("three")) {
        Retry::Return(Err(Error::Io(m))) => assert_eq!(m, "three"),
        _ => panic!("no attempt is left"),
    }

    stage.retries = 0;
    match StageRun::new(&stage).attempt_ended(Attempt::TimedOut) {
        Retry::Return(Err(Error::Timeout { stage: name, secs })) => {
            assert_eq!(name, stage.name);
            assert_eq!(secs, 9);
        }
        _ => panic!("no attempt is left"),
    }
}

#[test]
fn shape_and_plugins_are_examined_first() {
    let mut registry = PluginRegistry::new();
    registry.register(MockPlugin::new("p", |_| Ok(vec![])));
    let engine = ExecutionEngine::new(registry);
    let mut pipeline = PipelineDef::parse(DIAMOND, "").unwrap();
    for stage in &mut pipeline.stages {
        stage.plugin = "p".to_string();
    }
    assert!(engine.examine(&pipeline).is_ok());
    pipeline.stages[1].plugin = "q".to_string();
    match engine.examine(&pipeline) {
        Err(Error::UnknownPlugin(name)) => assert_eq!(name, "q"),
        _ => panic!("expected an unknown plugin"),
    }
    pipeline.stages.clear();
    assert!(matches!(engine.examine(&pipeline), Err(Error::InvalidPipeline(_))));
}

#[test]
fn registering_a_name_again_replaces_the_plugin() {
    let mut registry = PluginRegistry::new();
    registry.register(MockPlugin::new("p", |_| Ok(vec![])));
    registry.register(MockPlugin::new("q", |_| Ok(vec![])));
    let mut slow = MockPlugin::new("p", |_| Ok(vec![]));
    slow.slow = true;
    registry.register(slow);
    assert_eq!(registry.iter().len(), 2);
    assert!(registry.get("p").ok().unwrap().slow);
    assert!(!registry.get("q").ok().unwrap().slow);
}
