//! The control-flow vocabulary shared by agents and the runner: outcomes,
//! retry hints, and the step error taxonomy, plus the agent contract
//! itself.
use vstd::prelude::*;

use crate::ctx::Ctx;

verus! {

/// The result of running a step: a new state plus what to do next.
pub type StepResult<S> = Result<(S, Outcome), StepError>;

/// A sync agent that transforms state one step at a time.
///
/// Implement this trait on your own structs and register them into a
/// [`crate::Workflow`] to build a pipeline. The runner assumes nothing
/// about `run`: an agent may return any outcome and change the context
/// however it likes.
pub trait Agent<S>: Send + 'static {
    /// A unique name for this agent, used for routing with
    /// [`Outcome::Next`].
    fn name(&self) -> &'static str;

    /// Run one step. Returns the updated state and an [`Outcome`] that
    /// tells the runner what to do next.
    fn run(&mut self, state: S, ctx: &mut Ctx) -> StepResult<S>;
}

/// Control flow for the runner.
#[derive(Debug, Clone)]
pub enum Outcome {
    /// Follow the workflow's default next step (set via `then`).
    Continue,
    /// Workflow complete, return the final state.
    Done,
    /// Jump to a specific agent by name.
    Next(&'static str),
    /// Re-run the current agent (counted against `max_retries`).
    Retry(RetryHint),
    /// Sleep for the given number of milliseconds, then re-run (counted
    /// against `max_retries`).
    Wait(u64),
    /// Stop the workflow with an error.
    Fail(String),
}

/// The mathematical picture of an [`Outcome`]: names and messages as
/// character sequences.
pub enum OutcomeView {
    Continue,
    Done,
    Next(Seq<char>),
    Retry(Seq<char>),
    Wait(u64),
    Fail(Seq<char>),
}

impl View for Outcome {
    type V = OutcomeView;

    open spec fn view(&self) -> OutcomeView {
        match self {
            Outcome::Continue => OutcomeView::Continue,
            Outcome::Done => OutcomeView::Done,
            Outcome::Next(step) => OutcomeView::Next(step@),
            Outcome::Retry(hint) => OutcomeView::Retry(hint.reason@),
            Outcome::Wait(millis) => OutcomeView::Wait(*millis),
            Outcome::Fail(msg) => OutcomeView::Fail(msg@),
        }
    }
}

/// Metadata attached to an [`Outcome::Retry`] to explain why the agent
/// wants to retry.
#[derive(Debug, Clone)]
pub struct RetryHint {
    /// Human-readable reason for the retry.
    pub reason: String,
}

impl RetryHint {
    /// Create a new hint with the given reason.
    pub fn new(reason: &str) -> (r: Self)
        ensures
            r.reason@ == reason@,
    {
        Self { reason: reason.to_owned() }
    }
}

/// Error type for agent steps, with variants designed around what the
/// caller can do about them.
#[derive(Debug)]
pub enum StepError {
    /// Bad input or agent logic error. Don't retry, fix the code.
    Invalid(String),
    /// Transient failure (network, rate limit). Retrying might help.
    Transient(String),
    /// Agent decided to fail explicitly via [`Outcome::Fail`].
    Failed(String),
    /// Everything else. Inspect the message for details.
    Other(String),
}

/// The mathematical picture of a [`StepError`].
pub enum StepErrorView {
    Invalid(Seq<char>),
    Transient(Seq<char>),
    Failed(Seq<char>),
    Other(Seq<char>),
}

impl View for StepError {
    type V = StepErrorView;

    open spec fn view(&self) -> StepErrorView {
        match self {
            StepError::Invalid(msg) => StepErrorView::Invalid(msg@),
            StepError::Transient(msg) => StepErrorView::Transient(msg@),
            StepError::Failed(msg) => StepErrorView::Failed(msg@),
            StepError::Other(msg) => StepErrorView::Other(msg@),
        }
    }
}

/// The rendering of an error as text: the kind as a prefix, except for
/// the uncategorized kind, which is its bare message.
pub open spec fn error_text(e: StepErrorView) -> Seq<char> {
    match e {
        StepErrorView::Invalid(msg) => "invalid: "@ + msg,
        StepErrorView::Transient(msg) => "transient: "@ + msg,
        StepErrorView::Failed(msg) => "failed: "@ + msg,
        StepErrorView::Other(msg) => msg,
    }
}

impl StepError {
    /// Create an [`Invalid`](StepError::Invalid) error.
    pub fn invalid(msg: &str) -> (r: Self)
        ensures
            r@ == StepErrorView::Invalid(msg@),
    {
        StepError::Invalid(msg.to_owned())
    }

    /// Create an [`Other`](StepError::Other) error.
    pub fn other(msg: &str) -> (r: Self)
        ensures
            r@ == StepErrorView::Other(msg@),
    {
        StepError::Other(msg.to_owned())
    }

    /// Create a [`Transient`](StepError::Transient) error.
    pub fn transient(msg: &str) -> (r: Self)
        ensures
            r@ == StepErrorView::Transient(msg@),
    {
        StepError::Transient(msg.to_owned())
    }

    /// Render the error as text, kind first.
    pub fn describe(&self) -> (r: String)
        ensures
            r@ == error_text(self@),
    {
        match self {
            StepError::Invalid(msg) => "invalid: ".to_owned().concat(msg.as_str()),
            StepError::Transient(msg) => "transient: ".to_owned().concat(msg.as_str()),
            StepError::Failed(msg) => "failed: ".to_owned().concat(msg.as_str()),
            StepError::Other(msg) => msg.clone(),
        }
    }
}

/// Relies on the standard library's rendering of `std::io::Error`: turns
/// the error into its human-readable message.
#[verifier::external_body]
fn io_error_text(e: &std::io::Error) -> String {
    e.to_string()
}

#[verifier::external_type_specification]
#[verifier::external_body]
pub struct ExIoError(std::io::Error);

impl From<std::io::Error> for StepError {
    /// Wrap a filesystem or other I/O failure as an uncategorized error.
    fn from(e: std::io::Error) -> (r: Self)
    {
        StepError::Other(io_error_text(&e))
    }
}

impl vstd::std_specs::convert::FromSpecImpl<std::io::Error> for StepError {
    open spec fn obeys_from_spec() -> bool {
        false
    }

    open spec fn from_spec(e: std::io::Error) -> Self {
        arbitrary()
    }
}

} // verus!
