use agent_line::Agent;
use agent_line::Ctx;
use agent_line::Outcome;
use agent_line::StepResult;
use agent_line::Workflow;
use agent_line::WorkflowError;

#[derive(Clone)]
struct S;

struct FakeAgent(&'static str);

impl Agent<S> for FakeAgent {
    fn name(&self) -> &'static str {
        self.0
    }
    fn run(&mut self, state: S, _ctx: &mut Ctx) -> StepResult<S> {
        Ok((state, Outcome::Done))
    }
}

#[test]
fn build_valid_workflow() {
    let wf = Workflow::builder("test")
        .register(FakeAgent("a"))
        .register(FakeAgent("b"))
        .start_at("a")
        .then("b")
        .build();

    assert!(wf.is_ok());
    let wf = wf.unwrap();
    assert_eq!(wf.name(), "test");
    assert_eq!(wf.start(), "a");
    assert_eq!(wf.default_next("a"), Some("b"));
}

#[test]
fn missing_start_on_empty_builder() {
    let err = Workflow::<S>::builder("test").build().err().unwrap();
    assert!(matches!(err, WorkflowError::MissingStart));
}

#[test]
fn unknown_start_at_step() {
    let err = Workflow::builder("test")
        .register(FakeAgent("a"))
        .start_at("missing")
        .build()
        .err()
        .unwrap();

    assert!(matches!(err, WorkflowError::UnknownStep("missing")));
}

#[test]
fn unknown_then_target() {
    let err = Workflow::builder("test")
        .register(FakeAgent("a"))
        .start_at("a")
        .then("missing")
        .build()
        .err()
        .unwrap();

    assert!(matches!(err, WorkflowError::UnknownStep("missing")));
}

#[test]
fn first_agent_becomes_default_start() {
    let wf = Workflow::builder("test")
        .register(FakeAgent("first"))
        .build();

    assert!(wf.is_ok());
    assert_eq!(wf.unwrap().start(), "first");
}

#[test]
fn duplicate_agent_rejected() {
    let err = Workflow::builder("test")
        .register(FakeAgent("a"))
        .register(FakeAgent("a"))
        .build()
        .err()
        .unwrap();

    assert!(matches!(err, WorkflowError::DuplicateAgent("a")));
}

#[test]
fn then_before_any_registration_sets_start() {
    let wf = Workflow::builder("test")
        .then("a")
        .register(FakeAgent("a"))
        .build()
        .unwrap();
    assert_eq!(wf.start(), "a");
    assert_eq!(wf.default_next("a"), None);
}

#[test]
fn then_replaces_earlier_edge_from_same_step() {
    let wf = Workflow::builder("test")
        .register(FakeAgent("a"))
        .register(FakeAgent("b"))
        .register(FakeAgent("c"))
        .start_at("a")
        .then("b")
        .start_at("a")
        .then("c")
        .build()
        .unwrap();
    assert_eq!(wf.default_next("a"), Some("c"));
}

#[test]
fn workflow_error_describe_names_the_step() {
    assert_eq!(
        WorkflowError::DuplicateAgent("a").describe(),
        "duplicate agent name: a"
    );
    assert_eq!(
        WorkflowError::UnknownStep("b").describe(),
        "unknown step: b"
    );
    assert_eq!(
        WorkflowError::MissingStart.describe(),
        "workflow missing start step"
    );
}
