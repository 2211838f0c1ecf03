use std::cell::RefCell;
use std::rc::Rc;
use std::sync::Arc;
use std::sync::Mutex;

use agent_line::Agent;
use agent_line::Ctx;
use agent_line::ErrorEvent;
use agent_line::ErrorHook;
use agent_line::Outcome;
use agent_line::RetryHint;
use agent_line::Runner;
use agent_line::Sleeper;
use agent_line::StepError;
use agent_line::StepEvent;
use agent_line::StepHook;
use agent_line::StepResult;
use agent_line::Workflow;

#[derive(Clone)]
struct S(u32);

struct RetryAgent {
    attempts: u32,
    succeed_on: u32,
}

impl Agent<S> for RetryAgent {
    fn name(&self) -> &'static str {
        "retry_agent"
    }
    fn run(&mut self, state: S, _ctx: &mut Ctx) -> StepResult<S> {
        self.attempts += 1;
        if self.attempts >= self.succeed_on {
            Ok((state, Outcome::Done))
        } else {
            Ok((state, Outcome::Retry(RetryHint::new("not ready"))))
        }
    }
}

struct AlwaysRetry;
impl Agent<S> for AlwaysRetry {
    fn name(&self) -> &'static str {
        "always_retry"
    }
    fn run(&mut self, state: S, _ctx: &mut Ctx) -> StepResult<S> {
        Ok((state, Outcome::Retry(RetryHint::new("never ready"))))
    }
}

struct WaitOnce {
    waited: bool,
}
impl Agent<S> for WaitOnce {
    fn name(&self) -> &'static str {
        "wait_once"
    }
    fn run(&mut self, state: S, _ctx: &mut Ctx) -> StepResult<S> {
        if !self.waited {
            self.waited = true;
            Ok((state, Outcome::Wait(1)))
        } else {
            Ok((state, Outcome::Done))
        }
    }
}

struct CountingStepHook(Rc<RefCell<usize>>);
impl StepHook for CountingStepHook {
    fn on_step(&mut self, _event: &StepEvent<'_>) {
        *self.0.borrow_mut() += 1;
    }
}

struct CountingErrorHook(Rc<RefCell<usize>>);
impl ErrorHook for CountingErrorHook {
    fn on_error(&mut self, _event: &ErrorEvent<'_>) {
        *self.0.borrow_mut() += 1;
    }
}

struct RecordingStepHook(Rc<RefCell<Vec<(usize, usize)>>>);
impl StepHook for RecordingStepHook {
    fn on_step(&mut self, event: &StepEvent<'_>) {
        self.0.borrow_mut().push((event.step_number, event.retries));
    }
}

struct NamedStepHook(Rc<RefCell<Vec<(String, usize)>>>);
impl StepHook for NamedStepHook {
    fn on_step(&mut self, event: &StepEvent<'_>) {
        self.0
            .borrow_mut()
            .push((event.agent.to_string(), event.retries));
    }
}

struct MaxStepsErrorHook(Rc<RefCell<usize>>);
impl ErrorHook for MaxStepsErrorHook {
    fn on_error(&mut self, event: &ErrorEvent<'_>) {
        assert!(event.error.describe().contains("max_steps exceeded"));
        *self.0.borrow_mut() += 1;
    }
}

struct RecordingSleeper(Rc<RefCell<Vec<u64>>>);
impl Sleeper for RecordingSleeper {
    fn sleep(&mut self, millis: u64) {
        self.0.borrow_mut().push(millis);
    }
}

#[test]
fn retry_succeeds_within_limit() {
    let wf = Workflow::builder("test")
        .register(RetryAgent {
            attempts: 0,
            succeed_on: 3,
        })
        .build()
        .unwrap();

    let mut runner = Runner::new(wf);
    let mut ctx = Ctx::new();
    let result = runner.run(S(0), &mut ctx);
    assert!(result.is_ok());
}

#[test]
fn retry_exceeds_limit() {
    let wf = Workflow::builder("test")
        .register(AlwaysRetry)
        .build()
        .unwrap();

    let mut runner = Runner::new(wf).with_max_retries(2);
    let mut ctx = Ctx::new();
    let err = runner.run(S(0), &mut ctx).err().unwrap();
    assert!(err.describe().contains("exceeded max retries"));
}

#[test]
fn wait_sleeps_and_reruns() {
    let sleeps = Rc::new(RefCell::new(Vec::new()));
    let wf = Workflow::builder("test")
        .register(WaitOnce { waited: false })
        .build()
        .unwrap();

    let mut runner = Runner::new(wf).with_sleeper(RecordingSleeper(Rc::clone(&sleeps)));
    let mut ctx = Ctx::new();
    let result = runner.run(S(0), &mut ctx);
    assert!(result.is_ok());
    assert_eq!(*sleeps.borrow(), vec![1]);
}

// --- hook tests ---

struct DoneAgent;
impl Agent<S> for DoneAgent {
    fn name(&self) -> &'static str {
        "done_agent"
    }
    fn run(&mut self, state: S, _ctx: &mut Ctx) -> StepResult<S> {
        Ok((state, Outcome::Done))
    }
}

struct FailingAgent;
impl Agent<S> for FailingAgent {
    fn name(&self) -> &'static str {
        "failing_agent"
    }
    fn run(&mut self, _state: S, _ctx: &mut Ctx) -> StepResult<S> {
        Err(StepError::transient("boom"))
    }
}

struct AlwaysContinue;
impl Agent<S> for AlwaysContinue {
    fn name(&self) -> &'static str {
        "always_continue"
    }
    fn run(&mut self, state: S, _ctx: &mut Ctx) -> StepResult<S> {
        Ok((state, Outcome::Continue))
    }
}

#[test]
fn on_step_fires_on_success() {
    let count = Rc::new(RefCell::new(0usize));

    let wf = Workflow::builder("test").register(DoneAgent).build().unwrap();

    let mut runner = Runner::new(wf).on_step(CountingStepHook(Rc::clone(&count)));

    let mut ctx = Ctx::new();
    runner.run(S(0), &mut ctx).unwrap();
    assert_eq!(*count.borrow(), 1);
}

#[test]
fn on_error_fires_on_agent_error() {
    let count = Rc::new(RefCell::new(0usize));

    let wf = Workflow::builder("test")
        .register(FailingAgent)
        .build()
        .unwrap();

    let mut runner = Runner::new(wf).on_error(CountingErrorHook(Rc::clone(&count)));

    let mut ctx = Ctx::new();
    let _ = runner.run(S(0), &mut ctx);
    assert_eq!(*count.borrow(), 1);
}

#[test]
fn on_error_fires_on_max_retries() {
    let count = Rc::new(RefCell::new(0usize));

    let wf = Workflow::builder("test")
        .register(AlwaysRetry)
        .build()
        .unwrap();

    let mut runner = Runner::new(wf)
        .with_max_retries(1)
        .on_error(CountingErrorHook(Rc::clone(&count)));

    let mut ctx = Ctx::new();
    let _ = runner.run(S(0), &mut ctx);
    assert_eq!(*count.borrow(), 1);
}

#[test]
fn on_error_fires_on_max_steps() {
    let count = Rc::new(RefCell::new(0usize));

    let wf = Workflow::builder("test")
        .register(AlwaysContinue)
        .register(DoneAgent)
        .start_at("always_continue")
        .then("done_agent")
        .build()
        .unwrap();

    // Two agents ping-pong via Continue, but max_steps=1 cuts it short
    let mut runner = Runner::new(wf)
        .with_max_steps(1)
        .on_error(MaxStepsErrorHook(Rc::clone(&count)));

    let mut ctx = Ctx::new();
    let _ = runner.run(S(0), &mut ctx);
    assert_eq!(*count.borrow(), 1);
}

#[test]
fn on_step_receives_correct_step_number() {
    let steps = Rc::new(RefCell::new(Vec::new()));

    let wf = Workflow::builder("test")
        .register(RetryAgent {
            attempts: 0,
            succeed_on: 3,
        })
        .build()
        .unwrap();

    let mut runner = Runner::new(wf).on_step(RecordingStepHook(Rc::clone(&steps)));

    let mut ctx = Ctx::new();
    runner.run(S(0), &mut ctx).unwrap();

    let steps = steps.borrow();
    // 3 steps total: retry at step 1, retry at step 2, done at step 3
    assert_eq!(steps.len(), 3);
    assert_eq!(steps[0], (1, 0)); // first retry, 0 retries accumulated yet
    assert_eq!(steps[1], (2, 1)); // second retry, 1 retry accumulated
    assert_eq!(steps[2], (3, 2)); // success, 2 retries accumulated
}

// --- Outcome::Next ---

struct NextAgent;
impl Agent<S> for NextAgent {
    fn name(&self) -> &'static str {
        "next_agent"
    }
    fn run(&mut self, state: S, _ctx: &mut Ctx) -> StepResult<S> {
        Ok((S(state.0 + 1), Outcome::Next("done_agent")))
    }
}

#[test]
fn next_jumps_to_named_agent() {
    let wf = Workflow::builder("test")
        .register(NextAgent)
        .register(DoneAgent)
        .build()
        .unwrap();

    let mut runner = Runner::new(wf);
    let mut ctx = Ctx::new();
    let result = runner.run(S(0), &mut ctx).unwrap();
    assert_eq!(result.0, 1);
}

// --- Outcome::Fail ---

struct FailOutcomeAgent;
impl Agent<S> for FailOutcomeAgent {
    fn name(&self) -> &'static str {
        "fail_outcome"
    }
    fn run(&mut self, state: S, _ctx: &mut Ctx) -> StepResult<S> {
        Ok((state, Outcome::Fail("reason".into())))
    }
}

#[test]
fn fail_outcome_returns_step_error() {
    let wf = Workflow::builder("test")
        .register(FailOutcomeAgent)
        .build()
        .unwrap();

    let mut runner = Runner::new(wf);
    let mut ctx = Ctx::new();
    let err = runner.run(S(0), &mut ctx).err().unwrap();
    assert!(matches!(err, StepError::Failed(msg) if msg == "reason"));
}

// --- Continue without default_next ---

#[test]
fn continue_without_default_next_errors() {
    let wf = Workflow::builder("test")
        .register(AlwaysContinue)
        .build()
        .unwrap();

    let mut runner = Runner::new(wf);
    let mut ctx = Ctx::new();
    let err = runner.run(S(0), &mut ctx).err().unwrap();
    assert!(err.describe().contains("no default next step"));
}

#[test]
fn on_error_fires_on_missing_default_edge() {
    let count = Rc::new(RefCell::new(0usize));

    let wf = Workflow::builder("test")
        .register(AlwaysContinue)
        .build()
        .unwrap();

    let mut runner = Runner::new(wf).on_error(CountingErrorHook(Rc::clone(&count)));
    let mut ctx = Ctx::new();
    let err = runner.run(S(0), &mut ctx).err().unwrap();
    assert!(err.describe().contains("no default next step"));
    assert_eq!(*count.borrow(), 1);
}

#[test]
fn on_error_fires_on_unknown_step() {
    struct JumpsToMissing;
    impl Agent<S> for JumpsToMissing {
        fn name(&self) -> &'static str {
            "jumps_to_missing"
        }
        fn run(&mut self, state: S, _ctx: &mut Ctx) -> StepResult<S> {
            Ok((state, Outcome::Next("no_such_step")))
        }
    }

    let count = Rc::new(RefCell::new(0usize));
    let wf = Workflow::builder("test")
        .register(JumpsToMissing)
        .build()
        .unwrap();

    let mut runner = Runner::new(wf).on_error(CountingErrorHook(Rc::clone(&count)));
    let mut ctx = Ctx::new();
    let err = runner.run(S(0), &mut ctx).err().unwrap();
    assert_eq!(err.describe(), "unknown step: no_such_step");
    assert_eq!(*count.borrow(), 1);
}

// --- Wait exceeds max_retries ---

struct AlwaysWait;
impl Agent<S> for AlwaysWait {
    fn name(&self) -> &'static str {
        "always_wait"
    }
    fn run(&mut self, state: S, _ctx: &mut Ctx) -> StepResult<S> {
        Ok((state, Outcome::Wait(1)))
    }
}

#[test]
fn wait_exceeds_max_retries() {
    let wf = Workflow::builder("test")
        .register(AlwaysWait)
        .build()
        .unwrap();

    let mut runner = Runner::new(wf).with_max_retries(1);
    let mut ctx = Ctx::new();
    let err = runner.run(S(0), &mut ctx).err().unwrap();
    assert!(err.describe().contains("exceeded max retries"));
}

// --- Retry counter resets on step transition ---

struct RetryOnceThenContinue {
    attempts: u32,
}
impl Agent<S> for RetryOnceThenContinue {
    fn name(&self) -> &'static str {
        "retry_once_then_continue"
    }
    fn run(&mut self, state: S, _ctx: &mut Ctx) -> StepResult<S> {
        self.attempts += 1;
        if self.attempts < 2 {
            Ok((state, Outcome::Retry(RetryHint::new("not yet"))))
        } else {
            Ok((state, Outcome::Continue))
        }
    }
}

#[test]
fn retry_counter_resets_on_step_transition() {
    let events = Rc::new(RefCell::new(Vec::new()));

    let wf = Workflow::builder("test")
        .register(RetryOnceThenContinue { attempts: 0 })
        .register(DoneAgent)
        .start_at("retry_once_then_continue")
        .then("done_agent")
        .build()
        .unwrap();

    let mut runner = Runner::new(wf).on_step(NamedStepHook(Rc::clone(&events)));

    let mut ctx = Ctx::new();
    runner.run(S(0), &mut ctx).unwrap();

    let events = events.borrow();
    // retry_once_then_continue fires twice (retry then continue), done_agent fires once
    assert_eq!(events.len(), 3);
    // done_agent should have retries=0 (reset after transition)
    let done_event = events.iter().find(|(name, _)| name == "done_agent").unwrap();
    assert_eq!(done_event.1, 0);
}

// --- Retry budget counts invocations exactly ---

struct CountedRetry(Arc<Mutex<u32>>);
impl Agent<S> for CountedRetry {
    fn name(&self) -> &'static str {
        "counted_retry"
    }
    fn run(&mut self, state: S, _ctx: &mut Ctx) -> StepResult<S> {
        *self.0.lock().unwrap() += 1;
        Ok((state, Outcome::Retry(RetryHint::new("still not ready"))))
    }
}

#[test]
fn retry_budget_counts_invocations() {
    let calls = Arc::new(Mutex::new(0u32));
    let wf = Workflow::builder("test")
        .register(CountedRetry(Arc::clone(&calls)))
        .build()
        .unwrap();

    let mut runner = Runner::new(wf).with_max_retries(2);
    let mut ctx = Ctx::new();
    let err = runner.run(S(0), &mut ctx).err().unwrap();
    assert!(err.describe().contains("exceeded max retries (2): still not ready"));
    // a budget of two permits exactly three invocations: the first try
    // plus two retries
    assert_eq!(*calls.lock().unwrap(), 3);
}

// --- End-to-end: increment until a threshold ---

struct Increment;
impl Agent<S> for Increment {
    fn name(&self) -> &'static str {
        "increment"
    }
    fn run(&mut self, state: S, _ctx: &mut Ctx) -> StepResult<S> {
        Ok((S(state.0 + 1), Outcome::Continue))
    }
}

struct StopAtThree;
impl Agent<S> for StopAtThree {
    fn name(&self) -> &'static str {
        "stop-at-3"
    }
    fn run(&mut self, state: S, _ctx: &mut Ctx) -> StepResult<S> {
        if state.0 >= 3 {
            Ok((state, Outcome::Done))
        } else {
            Ok((state, Outcome::Next("increment")))
        }
    }
}

#[test]
fn two_step_graph_counts_to_three() {
    let wf = Workflow::builder("counter")
        .register(Increment)
        .register(StopAtThree)
        .start_at("increment")
        .then("stop-at-3")
        .build()
        .unwrap();

    let mut runner = Runner::new(wf);
    let mut ctx = Ctx::new();
    let result = runner.run(S(0), &mut ctx).unwrap();
    assert_eq!(result.0, 3);
}

#[test]
fn unknown_jump_target_fails_at_runtime() {
    struct JumpsNowhere;
    impl Agent<S> for JumpsNowhere {
        fn name(&self) -> &'static str {
            "jumps_nowhere"
        }
        fn run(&mut self, state: S, _ctx: &mut Ctx) -> StepResult<S> {
            Ok((state, Outcome::Next("no_such_step")))
        }
    }

    let wf = Workflow::builder("test")
        .register(JumpsNowhere)
        .build()
        .unwrap();

    let mut runner = Runner::new(wf);
    let mut ctx = Ctx::new();
    let err = runner.run(S(0), &mut ctx).err().unwrap();
    assert_eq!(err.describe(), "unknown step: no_such_step");
}
