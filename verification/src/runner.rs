//! The control-flow interpreter: drives a workflow against a state,
//! calling agents in sequence according to their outcomes, with a step
//! budget, a consecutive-retry budget, and optional instrumentation.
use vstd::prelude::*;

use crate::agent::Outcome;
use crate::agent::OutcomeView;
use crate::agent::StepError;
use crate::agent::StepErrorView;
use crate::ctx::Ctx;
use crate::text::dec_rep;
use crate::text::to_decimal;
use crate::workflow::Registration;
use crate::workflow::Workflow;
use crate::workflow::WorkflowView;
use crate::workflow::edge_target;
use crate::workflow::edge_views;
use crate::workflow::reg_names;

verus! {

/// Passed to the step hook after each successful agent step.
pub struct StepEvent<'a> {
    /// The agent that ran.
    pub agent: &'a str,
    /// The outcome it returned.
    pub outcome: &'a Outcome,
    /// How long the invocation took, in whole milliseconds.
    pub duration_ms: u64,
    /// The number of this invocation, counted from one.
    pub step_number: usize,
    /// Consecutive retries accumulated at this step before the
    /// invocation.
    pub retries: usize,
}

/// Passed to the error hook when an agent errors or a limit is exceeded.
pub struct ErrorEvent<'a> {
    /// The step at which the run ended.
    pub agent: &'a str,
    /// The terminal error.
    pub error: &'a StepError,
    /// The number of the last invocation.
    pub step_number: usize,
}

/// An observer of successful steps, fired once per event, synchronously,
/// in event order.
pub trait StepHook: 'static {
    /// Called after each successful agent step.
    fn on_step(&mut self, event: &StepEvent<'_>);
}

/// An observer of terminal errors, fired before the error is returned.
pub trait ErrorHook: 'static {
    /// Called when an agent errors or a limit is exceeded.
    fn on_error(&mut self, event: &ErrorEvent<'_>);
}

/// Performs the pause a wait outcome asks for. The runner itself cannot
/// block; install one (for instance, one that puts the thread to sleep)
/// to honour wait outcomes, or the pause is skipped.
pub trait Sleeper: 'static {
    /// Pause for the given number of milliseconds.
    fn sleep(&mut self, millis: u64);
}

/// What one agent invocation handed back, as the model sees it.
pub enum ReplyView<S> {
    /// The agent returned a new state and an outcome.
    Step(S, OutcomeView),
    /// The agent returned an error.
    Error(StepErrorView),
}

/// The interpreter's state between invocations: the current step, the
/// consecutive retries accumulated there, and how many invocations have
/// happened.
pub struct RunState {
    pub current: Seq<char>,
    pub retries: nat,
    pub steps_done: nat,
}

/// What the step hook sees for one successful invocation.
pub struct StepEventView {
    pub agent: Seq<char>,
    pub outcome: OutcomeView,
    pub step_number: nat,
    pub retries: nat,
}

/// What the error hook sees for one terminal error.
pub struct ErrorEventView {
    pub agent: Seq<char>,
    pub error: StepErrorView,
    pub step_number: nat,
}

/// Everything one run produces: the result, the step events in order,
/// and the error events in order.
pub struct RunLog<S> {
    pub result: Result<S, StepErrorView>,
    pub steps: Seq<StepEventView>,
    pub errors: Seq<ErrorEventView>,
}

/// The message when a jumped-to step names no registered agent.
pub open spec fn unknown_step_msg(step: Seq<char>) -> Seq<char> {
    "unknown step: "@ + step
}

/// The message when a step proceeds with no default edge configured.
pub open spec fn no_default_msg(step: Seq<char>) -> Seq<char> {
    "step '"@ + step + "' returned Continue but no default next step is configured"@
}

/// The message when retries exceed the budget.
pub open spec fn retry_exceeded_msg(step: Seq<char>, budget: nat, reason: Seq<char>) -> Seq<
    char,
> {
    "step '"@ + step + "' exceeded max retries ("@ + dec_rep(budget) + "): "@ + reason
}

/// The message when waits exceed the retry budget.
pub open spec fn wait_exceeded_msg(step: Seq<char>, budget: nat) -> Seq<char> {
    "step '"@ + step + "' exceeded max retries ("@ + dec_rep(budget) + ") while waiting"@
}

/// The message when the step budget runs out.
pub open spec fn step_budget_msg(workflow: Seq<char>) -> Seq<char> {
    "max_steps exceeded (possible infinite loop) in workflow "@ + workflow
}

/// The interpreter, one invocation per list entry: starting in state
/// `st`, `replies` says what each coming agent invocation hands back,
/// and the interpreter's bookkeeping decides everything else. Only runs
/// that terminate within `replies` are described; the exec runner always
/// supplies exactly the replies its agents produced.
pub open spec fn run_from<S>(
    wf: WorkflowView,
    max_steps: nat,
    max_retries: nat,
    st: RunState,
    replies: Seq<ReplyView<S>>,
) -> RunLog<S>
    decreases replies.len(),
{
    if st.steps_done >= max_steps {
        let e = StepErrorView::Other(step_budget_msg(wf.name));
        RunLog {
            result: Err(e),
            steps: Seq::empty(),
            errors: seq![
                ErrorEventView { agent: st.current, error: e, step_number: st.steps_done },
            ],
        }
    } else if !wf.agents.contains(st.current) {
        let e = StepErrorView::Other(unknown_step_msg(st.current));
        RunLog {
            result: Err(e),
            steps: Seq::empty(),
            errors: seq![
                ErrorEventView { agent: st.current, error: e, step_number: st.steps_done + 1 },
            ],
        }
    } else if replies.len() == 0 {
        arbitrary()
    } else {
        let step_number = st.steps_done + 1;
        let rest = replies.drop_first();
        match replies[0] {
            ReplyView::Error(e) => RunLog {
                result: Err(e),
                steps: Seq::empty(),
                errors: seq![ErrorEventView { agent: st.current, error: e, step_number }],
            },
            ReplyView::Step(s2, out) => {
                let ev = StepEventView {
                    agent: st.current,
                    outcome: out,
                    step_number,
                    retries: st.retries,
                };
                let tail = match out {
                    OutcomeView::Done => RunLog {
                        result: Ok(s2),
                        steps: Seq::empty(),
                        errors: Seq::empty(),
                    },
                    OutcomeView::Fail(msg) => {
                        let e = StepErrorView::Failed(msg);
                        RunLog {
                            result: Err(e),
                            steps: Seq::empty(),
                            errors: seq![
                                ErrorEventView { agent: st.current, error: e, step_number },
                            ],
                        }
                    },
                    OutcomeView::Next(step) => run_from(
                        wf,
                        max_steps,
                        max_retries,
                        RunState { current: step, retries: 0, steps_done: step_number },
                        rest,
                    ),
                    OutcomeView::Continue => match edge_target(wf.edges, st.current) {
                        Some(next) => run_from(
                            wf,
                            max_steps,
                            max_retries,
                            RunState { current: next, retries: 0, steps_done: step_number },
                            rest,
                        ),
                        None => {
                            let e = StepErrorView::Other(no_default_msg(st.current));
                            RunLog {
                                result: Err(e),
                                steps: Seq::empty(),
                                errors: seq![
                                    ErrorEventView { agent: st.current, error: e, step_number },
                                ],
                            }
                        },
                    },
                    OutcomeView::Retry(reason) => if st.retries + 1 > max_retries {
                        let e = StepErrorView::Other(
                            retry_exceeded_msg(st.current, max_retries, reason),
                        );
                        RunLog {
                            result: Err(e),
                            steps: Seq::empty(),
                            errors: seq![
                                ErrorEventView { agent: st.current, error: e, step_number },
                            ],
                        }
                    } else {
                        run_from(
                            wf,
                            max_steps,
                            max_retries,
                            RunState {
                                current: st.current,
                                retries: st.retries + 1,
                                steps_done: step_number,
                            },
                            rest,
                        )
                    },
                    OutcomeView::Wait(_) => if st.retries + 1 > max_retries {
                        let e = StepErrorView::Other(
                            wait_exceeded_msg(st.current, max_retries),
                        );
                        RunLog {
                            result: Err(e),
                            steps: Seq::empty(),
                            errors: seq![
                                ErrorEventView { agent: st.current, error: e, step_number },
                            ],
                        }
                    } else {
                        run_from(
                            wf,
                            max_steps,
                            max_retries,
                            RunState {
                                current: st.current,
                                retries: st.retries + 1,
                                steps_done: step_number,
                            },
                            rest,
                        )
                    },
                };
                RunLog { result: tail.result, steps: seq![ev] + tail.steps, errors: tail.errors }
            },
        }
    }
}

/// A whole run: the interpreter started at the workflow's start step
/// with both counters at zero.
pub open spec fn run_model<S>(
    wf: WorkflowView,
    max_steps: nat,
    max_retries: nat,
    replies: Seq<ReplyView<S>>,
) -> RunLog<S> {
    run_from(wf, max_steps, max_retries, RunState { current: wf.start, retries: 0, steps_done: 0 }, replies)
}

/// The model's picture of what one agent invocation handed back.
pub open spec fn reply_of<S>(res: Result<(S, Outcome), StepError>) -> ReplyView<S> {
    match res {
        Ok(p) => ReplyView::Step(p.0, p.1@),
        Err(e) => ReplyView::Error(e@),
    }
}

/// A run result with the error abstracted to its view.
pub open spec fn result_view<S>(r: Result<S, StepError>) -> Result<S, StepErrorView> {
    match r {
        Ok(s) => Ok(s),
        Err(e) => Err(e@),
    }
}

/// Executes a workflow against a state: holds the graph, the execution
/// policy (step and retry budgets), and the optional hooks.
#[verifier::reject_recursive_types(S)]
pub struct Runner<S: Clone + 'static> {
    wf_name: &'static str,
    start: &'static str,
    agents: Vec<Registration<S>>,
    default_next: Vec<(&'static str, &'static str)>,
    max_steps: usize,
    max_retries: usize,
    on_step: Option<Box<dyn StepHook>>,
    on_error: Option<Box<dyn ErrorHook>>,
    sleeper: Option<Box<dyn Sleeper>>,
}

impl<S: Clone + 'static> Runner<S> {
    /// The workflow this runner drives, as the model sees it.
    pub closed spec fn wf_view(&self) -> WorkflowView {
        WorkflowView {
            name: self.wf_name@,
            start: self.start@,
            agents: reg_names(self.agents@),
            edges: edge_views(self.default_next@),
        }
    }

    /// The configured step budget.
    pub closed spec fn spec_max_steps(&self) -> nat {
        self.max_steps as nat
    }

    /// The configured consecutive-retry budget.
    pub closed spec fn spec_max_retries(&self) -> nat {
        self.max_retries as nat
    }

    /// Wrap a built workflow with the default policy: a step budget of
    /// ten thousand and a retry budget of three, no hooks, no sleeper.
    /// Without a sleeper installed (see [`Runner::with_sleeper`]) the
    /// pause a wait outcome asks for is skipped; its retry accounting is
    /// kept either way.
    pub fn new(wf: Workflow<S>) -> (r: Self)
        ensures
            r.wf_view() == wf@,
            r.spec_max_steps() == 10000,
            r.spec_max_retries() == 3,
    {
        proof {
            crate::workflow::lemma_workflow_view(&wf);
        }
        let Workflow { name, start, agents, default_next } = wf;
        let ghost v = wf@;
        proof {
            assert(v.agents == reg_names(agents@));
            assert(v.edges == edge_views(default_next@));
        }
        let r = Self {
            wf_name: name,
            start,
            agents,
            default_next,
            max_steps: 10000,
            max_retries: 3,
            on_step: None,
            on_error: None,
            sleeper: None,
        };
        proof {
            assert(r.wf_view() == v);
        }
        r
    }

    /// Cap the total number of agent invocations in one run: the
    /// infinite-loop guard.
    pub fn with_max_steps(self, max_steps: usize) -> (r: Self)
        ensures
            r.wf_view() == self.wf_view(),
            r.spec_max_steps() == max_steps as nat,
            r.spec_max_retries() == self.spec_max_retries(),
    {
        Self { max_steps, ..self }
    }

    /// Cap the consecutive retries allowed at a single step.
    pub fn with_max_retries(self, max_retries: usize) -> (r: Self)
        ensures
            r.wf_view() == self.wf_view(),
            r.spec_max_steps() == self.spec_max_steps(),
            r.spec_max_retries() == max_retries as nat,
    {
        Self { max_retries, ..self }
    }

    /// Register a hook that fires after each successful agent step.
    pub fn on_step<H: StepHook>(self, hook: H) -> (r: Self)
        ensures
            r.wf_view() == self.wf_view(),
            r.spec_max_steps() == self.spec_max_steps(),
            r.spec_max_retries() == self.spec_max_retries(),
    {
        Self { on_step: Some(Box::new(hook)), ..self }
    }

    /// Register a hook that fires when an agent errors or a limit is
    /// exceeded.
    pub fn on_error<H: ErrorHook>(self, hook: H) -> (r: Self)
        ensures
            r.wf_view() == self.wf_view(),
            r.spec_max_steps() == self.spec_max_steps(),
            r.spec_max_retries() == self.spec_max_retries(),
    {
        Self { on_error: Some(Box::new(hook)), ..self }
    }

    /// Install the pause implementation used for wait outcomes.
    pub fn with_sleeper<P: Sleeper>(self, sleeper: P) -> (r: Self)
        ensures
            r.wf_view() == self.wf_view(),
            r.spec_max_steps() == self.spec_max_steps(),
            r.spec_max_retries() == self.spec_max_retries(),
    {
        Self { sleeper: Some(Box::new(sleeper)), ..self }
    }
}

impl<S: Clone + 'static> Runner<S> {
    /// Execute the workflow against `state`: call the current step's
    /// agent, interpret its outcome, and repeat until an agent finishes
    /// or fails, an error occurs, or a budget runs out. The result is
    /// exactly what the interpreter model produces for the replies the
    /// agents gave.
    pub fn run(&mut self, state: S, ctx: &mut Ctx) -> (r: Result<S, StepError>)
        ensures
            final(self).wf_view() == old(self).wf_view(),
            final(self).spec_max_steps() == old(self).spec_max_steps(),
            final(self).spec_max_retries() == old(self).spec_max_retries(),
            exists|replies: Seq<ReplyView<S>>|
                (#[trigger] run_model::<S>(
                    old(self).wf_view(),
                    old(self).spec_max_steps(),
                    old(self).spec_max_retries(),
                    replies,
                )).result == result_view(r),
    {
        let ghost wfv = self.wf_view();
        let ghost ms = self.max_steps as nat;
        let ghost mr = self.max_retries as nat;
        let ghost st0 = RunState { current: wfv.start, retries: 0, steps_done: 0 };
        let mut state = state;
        let mut current: &'static str = self.start;
        let mut retries: usize = 0;
        let mut step_number: usize = 0;
        let ghost mut trace: Seq<ReplyView<S>> = Seq::empty();
        proof {
            assert forall|rest: Seq<ReplyView<S>>|
                (#[trigger] run_from(wfv, ms, mr, st0, trace + rest)).result == run_from(
                    wfv,
                    ms,
                    mr,
                    RunState {
                        current: current@,
                        retries: retries as nat,
                        steps_done: step_number as nat,
                    },
                    rest,
                ).result by {
                assert(trace + rest =~= rest);
            }
        }
        while step_number < self.max_steps
            invariant
                wfv == old(self).wf_view(),
                ms == old(self).spec_max_steps(),
                mr == old(self).spec_max_retries(),
                self.wf_view() == wfv,
                self.max_steps as nat == ms,
                self.max_retries as nat == mr,
                st0 == (RunState { current: wfv.start, retries: 0 as nat, steps_done: 0 as nat }),
                step_number <= self.max_steps,
                forall|rest: Seq<ReplyView<S>>|
                    (#[trigger] run_from(wfv, ms, mr, st0, trace + rest)).result == run_from(
                        wfv,
                        ms,
                        mr,
                        RunState {
                            current: current@,
                            retries: retries as nat,
                            steps_done: step_number as nat,
                        },
                        rest,
                    ).result,
            decreases self.max_steps - step_number,
        {
            step_number += 1;
            let ghost st = RunState {
                current: current@,
                retries: retries as nat,
                steps_done: (step_number - 1) as nat,
            };
            let idx = match crate::workflow::find_agent_index(&self.agents, current) {
                Some(i) => i,
                None => {
                    let msg = "unknown step: ".to_owned().concat(current);
                    let err = StepError::Other(msg);
                    let event = ErrorEvent { agent: current, error: &err, step_number };
                    match &mut self.on_error {
                        Some(h) => h.on_error(&event),
                        None => {},
                    }
                    proof {
                        assert(run_from(wfv, ms, mr, st0, trace + Seq::<ReplyView<S>>::empty())
                            .result == run_from(wfv, ms, mr, st, Seq::<ReplyView<S>>::empty())
                            .result);
                        assert(run_from(wfv, ms, mr, st, Seq::<ReplyView<S>>::empty()).result
                            == Err::<S, StepErrorView>(
                            StepErrorView::Other(unknown_step_msg(current@)),
                        ));
                        assert(run_model::<S>(wfv, ms, mr, trace + Seq::<ReplyView<S>>::empty())
                            .result == result_view(Err::<S, StepError>(err)));
                    }
                    return Err(err);
                },
            };
            let started = instant_now();
            let ghost regs_before = self.agents@;
            let res = crate::workflow::run_agent_at(&mut self.agents, idx, state.clone(), ctx);
            let duration_ms = duration_millis(&elapsed_of(&started));
            proof {
                crate::workflow::lemma_reg_names_eq::<S>(regs_before, self.agents@);
                assert(self.wf_view() == wfv);
            }
            let ghost reply: ReplyView<S> = reply_of(res);
            let ghost trace1 = trace + seq![reply];
            proof {
                assert(wfv.agents.contains(st.current));
                assert(st.steps_done < ms);
            }
            match res {
                Err(err) => {
                    let event = ErrorEvent { agent: current, error: &err, step_number };
                    match &mut self.on_error {
                        Some(h) => h.on_error(&event),
                        None => {},
                    }
                    proof {
                        lemma_unfold_error::<S>(
                            wfv,
                            ms,
                            mr,
                            st,
                            err@,
                            Seq::<ReplyView<S>>::empty(),
                        );
                        assert(run_model::<S>(wfv, ms, mr, trace + seq![reply]).result
                            == result_view(Err::<S, StepError>(err)));
                    }
                    return Err(err);
                },
                Ok((next_state, outcome)) => {
                    let event = StepEvent {
                        agent: current,
                        outcome: &outcome,
                        duration_ms,
                        step_number,
                        retries,
                    };
                    match &mut self.on_step {
                        Some(h) => h.on_step(&event),
                        None => {},
                    }
                    state = next_state;
                    proof {
                        assert(reply == ReplyView::Step(state, outcome@));
                    }
                    match outcome {
                        Outcome::Done => {
                            proof {
                                lemma_unfold_done::<S>(
                                    wfv,
                                    ms,
                                    mr,
                                    st,
                                    state,
                                    Seq::<ReplyView<S>>::empty(),
                                );
                                assert(run_model::<S>(wfv, ms, mr, trace1).result == result_view(
                                    Ok::<S, StepError>(state),
                                ));
                            }
                            return Ok(state);
                        },
                        Outcome::Fail(msg) => {
                            let ghost msgv = msg@;
                            let err = StepError::Failed(msg);
                            let event = ErrorEvent { agent: current, error: &err, step_number };
                            match &mut self.on_error {
                                Some(h) => h.on_error(&event),
                                None => {},
                            }
                            proof {
                                lemma_unfold_fail::<S>(
                                    wfv,
                                    ms,
                                    mr,
                                    st,
                                    state,
                                    msgv,
                                    Seq::<ReplyView<S>>::empty(),
                                );
                                assert(run_model::<S>(wfv, ms, mr, trace1).result == result_view(
                                    Err::<S, StepError>(err),
                                ));
                            }
                            return Err(err);
                        },
                        Outcome::Next(step) => {
                            current = step;
                            retries = 0;
                            proof {
                                assert forall|rest: Seq<ReplyView<S>>|
                                    (#[trigger] run_from(wfv, ms, mr, st0, trace1 + rest)).result
                                        == run_from(
                                        wfv,
                                        ms,
                                        mr,
                                        RunState {
                                            current: current@,
                                            retries: retries as nat,
                                            steps_done: step_number as nat,
                                        },
                                        rest,
                                    ).result by {
                                    assert(trace1 + rest =~= trace + (seq![reply] + rest));
                                    lemma_jump_resets_retries::<S>(
                                        wfv,
                                        ms,
                                        mr,
                                        st,
                                        state,
                                        step@,
                                        rest,
                                    );
                                }
                                trace = trace1;
                            }
                        },
                        Outcome::Continue => {
                            match crate::workflow::lookup_default(&self.default_next, current) {
                                Some(next) => {
                                    proof {
                                        assert forall|rest: Seq<ReplyView<S>>|
                                            (#[trigger] run_from(
                                                wfv,
                                                ms,
                                                mr,
                                                st0,
                                                trace1 + rest,
                                            )).result == run_from(
                                                wfv,
                                                ms,
                                                mr,
                                                RunState {
                                                    current: next@,
                                                    retries: 0 as nat,
                                                    steps_done: step_number as nat,
                                                },
                                                rest,
                                            ).result by {
                                            assert(trace1 + rest =~= trace + (
                                            seq![reply] + rest));
                                            lemma_proceed_resets_retries::<S>(
                                                wfv,
                                                ms,
                                                mr,
                                                st,
                                                state,
                                                next@,
                                                rest,
                                            );
                                        }
                                        trace = trace1;
                                    }
                                    current = next;
                                    retries = 0;
                                },
                                None => {
                                    let msg = "step '".to_owned().concat(current).concat(
                                        "' returned Continue but no default next step is configured",
                                    );
                                    let err = StepError::Other(msg);
                                    let event = ErrorEvent {
                                        agent: current,
                                        error: &err,
                                        step_number,
                                    };
                                    match &mut self.on_error {
                                        Some(h) => h.on_error(&event),
                                        None => {},
                                    }
                                    proof {
                                        lemma_proceed_without_edge_fails::<S>(
                                            wfv,
                                            ms,
                                            mr,
                                            st,
                                            state,
                                            Seq::<ReplyView<S>>::empty(),
                                        );
                                        assert(run_model::<S>(wfv, ms, mr, trace1).result
                                            == result_view(Err::<S, StepError>(err)));
                                    }
                                    return Err(err);
                                },
                            }
                        },
                        Outcome::Retry(hint) => {
                            if retries >= self.max_retries {
                                let msg = "step '".to_owned().concat(current).concat(
                                    "' exceeded max retries (",
                                ).concat(to_decimal(self.max_retries).as_str()).concat(
                                    "): ",
                                ).concat(hint.reason.as_str());
                                let err = StepError::Other(msg);
                                let event = ErrorEvent {
                                    agent: current,
                                    error: &err,
                                    step_number,
                                };
                                match &mut self.on_error {
                                    Some(h) => h.on_error(&event),
                                    None => {},
                                }
                                proof {
                                    lemma_unfold_retry::<S>(
                                        wfv,
                                        ms,
                                        mr,
                                        st,
                                        state,
                                        hint.reason@,
                                        Seq::<ReplyView<S>>::empty(),
                                    );
                                    assert(run_model::<S>(wfv, ms, mr, trace1).result
                                        == result_view(Err::<S, StepError>(err)));
                                }
                                return Err(err);
                            }
                            retries += 1;
                            proof {
                                assert forall|rest: Seq<ReplyView<S>>|
                                    (#[trigger] run_from(wfv, ms, mr, st0, trace1 + rest)).result
                                        == run_from(
                                        wfv,
                                        ms,
                                        mr,
                                        RunState {
                                            current: current@,
                                            retries: retries as nat,
                                            steps_done: step_number as nat,
                                        },
                                        rest,
                                    ).result by {
                                    assert(trace1 + rest =~= trace + (seq![reply] + rest));
                                    lemma_unfold_retry::<S>(
                                        wfv,
                                        ms,
                                        mr,
                                        st,
                                        state,
                                        hint.reason@,
                                        rest,
                                    );
                                }
                                trace = trace1;
                            }
                        },
                        Outcome::Wait(millis) => {
                            if retries >= self.max_retries {
                                let msg = "step '".to_owned().concat(current).concat(
                                    "' exceeded max retries (",
                                ).concat(to_decimal(self.max_retries).as_str()).concat(
                                    ") while waiting",
                                );
                                let err = StepError::Other(msg);
                                let event = ErrorEvent {
                                    agent: current,
                                    error: &err,
                                    step_number,
                                };
                                match &mut self.on_error {
                                    Some(h) => h.on_error(&event),
                                    None => {},
                                }
                                proof {
                                    lemma_unfold_wait::<S>(
                                        wfv,
                                        ms,
                                        mr,
                                        st,
                                        state,
                                        millis,
                                        Seq::<ReplyView<S>>::empty(),
                                    );
                                    assert(run_model::<S>(wfv, ms, mr, trace1).result
                                        == result_view(Err::<S, StepError>(err)));
                                }
                                return Err(err);
                            }
                            retries += 1;
                            match &mut self.sleeper {
                                Some(sl) => sl.sleep(millis),
                                None => {},
                            }
                            proof {
                                assert forall|rest: Seq<ReplyView<S>>|
                                    (#[trigger] run_from(wfv, ms, mr, st0, trace1 + rest)).result
                                        == run_from(
                                        wfv,
                                        ms,
                                        mr,
                                        RunState {
                                            current: current@,
                                            retries: retries as nat,
                                            steps_done: step_number as nat,
                                        },
                                        rest,
                                    ).result by {
                                    assert(trace1 + rest =~= trace + (seq![reply] + rest));
                                    lemma_unfold_wait::<S>(
                                        wfv,
                                        ms,
                                        mr,
                                        st,
                                        state,
                                        millis,
                                        rest,
                                    );
                                }
                                trace = trace1;
                            }
                        },
                    }
                },
            }
        }
        let msg = "max_steps exceeded (possible infinite loop) in workflow ".to_owned().concat(
            self.wf_name,
        );
        let err = StepError::Other(msg);
        let event = ErrorEvent { agent: current, error: &err, step_number };
        match &mut self.on_error {
            Some(h) => h.on_error(&event),
            None => {},
        }
        proof {
            let st = RunState {
                current: current@,
                retries: retries as nat,
                steps_done: step_number as nat,
            };
            assert(run_from(wfv, ms, mr, st0, trace + Seq::<ReplyView<S>>::empty()).result
                == run_from(wfv, ms, mr, st, Seq::<ReplyView<S>>::empty()).result);
            assert(st.steps_done >= ms);
            assert(run_model::<S>(wfv, ms, mr, trace + Seq::<ReplyView<S>>::empty()).result
                == result_view(Err::<S, StepError>(err)));
        }
        Err(err)
    }
}

#[verifier::external_type_specification]
#[verifier::external_body]
pub struct ExInstant(std::time::Instant);

/// Relies on std::time::Instant::now: reads the monotonic clock.
#[verifier::external_body]
fn instant_now() -> std::time::Instant {
    std::time::Instant::now()
}

/// Relies on std::time::Instant::elapsed: the time since `start`.
#[verifier::external_body]
fn elapsed_of(start: &std::time::Instant) -> core::time::Duration {
    start.elapsed()
}

/// Relies on core::time::Duration::as_millis: the duration in whole
/// milliseconds, truncated to sixty-four bits.
#[verifier::external_body]
fn duration_millis(d: &core::time::Duration) -> u64 {
    d.as_millis() as u64
}

proof fn lemma_unfold_error<S>(
    wf: WorkflowView,
    ms: nat,
    mr: nat,
    st: RunState,
    e: StepErrorView,
    rest: Seq<ReplyView<S>>,
)
    requires
        st.steps_done < ms,
        wf.agents.contains(st.current),
    ensures
        run_from(wf, ms, mr, st, seq![ReplyView::Error::<S>(e)] + rest).result == Err::<
            S,
            StepErrorView,
        >(e),
{
    let cons = seq![ReplyView::Error::<S>(e)] + rest;
    assert(cons.len() == rest.len() + 1);
    assert(cons[0] == ReplyView::Error::<S>(e));
}

proof fn lemma_unfold_done<S>(
    wf: WorkflowView,
    ms: nat,
    mr: nat,
    st: RunState,
    s2: S,
    rest: Seq<ReplyView<S>>,
)
    requires
        st.steps_done < ms,
        wf.agents.contains(st.current),
    ensures
        run_from(wf, ms, mr, st, seq![ReplyView::Step(s2, OutcomeView::Done)] + rest).result
            == Ok::<S, StepErrorView>(s2),
{
    let cons = seq![ReplyView::Step(s2, OutcomeView::Done)] + rest;
    assert(cons.len() == rest.len() + 1);
    assert(cons[0] == ReplyView::Step(s2, OutcomeView::Done));
}

proof fn lemma_unfold_fail<S>(
    wf: WorkflowView,
    ms: nat,
    mr: nat,
    st: RunState,
    s2: S,
    msg: Seq<char>,
    rest: Seq<ReplyView<S>>,
)
    requires
        st.steps_done < ms,
        wf.agents.contains(st.current),
    ensures
        run_from(wf, ms, mr, st, seq![ReplyView::Step(s2, OutcomeView::Fail(msg))] + rest).result
            == Err::<S, StepErrorView>(StepErrorView::Failed(msg)),
{
    let cons = seq![ReplyView::Step(s2, OutcomeView::Fail(msg))] + rest;
    assert(cons.len() == rest.len() + 1);
    assert(cons[0] == ReplyView::Step(s2, OutcomeView::Fail(msg)));
}

/// Law: transitioning via jump-to always resets the retry counter to
/// zero for the next step, whatever retries the prior step accumulated:
/// the run continues from the named step with a fresh counter.
pub proof fn lemma_jump_resets_retries<S>(
    wf: WorkflowView,
    ms: nat,
    mr: nat,
    st: RunState,
    s2: S,
    step: Seq<char>,
    rest: Seq<ReplyView<S>>,
)
    requires
        st.steps_done < ms,
        wf.agents.contains(st.current),
    ensures
        run_from(wf, ms, mr, st, seq![ReplyView::Step(s2, OutcomeView::Next(step))] + rest).result
            == run_from(
            wf,
            ms,
            mr,
            RunState { current: step, retries: 0, steps_done: st.steps_done + 1 },
            rest,
        ).result,
{
    let cons = seq![ReplyView::Step(s2, OutcomeView::Next(step))] + rest;
    assert(cons.len() == rest.len() + 1);
    assert(cons[0] == ReplyView::Step(s2, OutcomeView::Next(step)));
    assert(cons.drop_first() =~= rest);
}

/// Law: proceeding along a configured default edge always resets the
/// retry counter to zero for the next step.
pub proof fn lemma_proceed_resets_retries<S>(
    wf: WorkflowView,
    ms: nat,
    mr: nat,
    st: RunState,
    s2: S,
    next: Seq<char>,
    rest: Seq<ReplyView<S>>,
)
    requires
        st.steps_done < ms,
        wf.agents.contains(st.current),
        edge_target(wf.edges, st.current) == Some(next),
    ensures
        run_from(wf, ms, mr, st, seq![ReplyView::Step(s2, OutcomeView::Continue)] + rest).result
            == run_from(
            wf,
            ms,
            mr,
            RunState { current: next, retries: 0, steps_done: st.steps_done + 1 },
            rest,
        ).result,
{
    let cons = seq![ReplyView::Step(s2, OutcomeView::Continue)] + rest;
    assert(cons.len() == rest.len() + 1);
    assert(cons[0] == ReplyView::Step(s2, OutcomeView::Continue));
    assert(cons.drop_first() =~= rest);
}

/// Law: a step that proceeds along the default path with no configured
/// default edge always fails, with the error naming that step and the
/// missing edge, and the error hook sees exactly that error.
pub proof fn lemma_proceed_without_edge_fails<S>(
    wf: WorkflowView,
    ms: nat,
    mr: nat,
    st: RunState,
    s2: S,
    rest: Seq<ReplyView<S>>,
)
    requires
        st.steps_done < ms,
        wf.agents.contains(st.current),
        edge_target(wf.edges, st.current) is None,
    ensures
        run_from(wf, ms, mr, st, seq![ReplyView::Step(s2, OutcomeView::Continue)] + rest).result
            == Err::<S, StepErrorView>(StepErrorView::Other(no_default_msg(st.current))),
        run_from(wf, ms, mr, st, seq![ReplyView::Step(s2, OutcomeView::Continue)] + rest).errors
            == seq![
            ErrorEventView {
                agent: st.current,
                error: StepErrorView::Other(no_default_msg(st.current)),
                step_number: st.steps_done + 1,
            },
        ],
{
    let cons = seq![ReplyView::Step(s2, OutcomeView::Continue)] + rest;
    assert(cons.len() == rest.len() + 1);
    assert(cons[0] == ReplyView::Step(s2, OutcomeView::Continue));
}

proof fn lemma_unfold_retry<S>(
    wf: WorkflowView,
    ms: nat,
    mr: nat,
    st: RunState,
    s2: S,
    reason: Seq<char>,
    rest: Seq<ReplyView<S>>,
)
    requires
        st.steps_done < ms,
        wf.agents.contains(st.current),
    ensures
        st.retries + 1 > mr ==> run_from(
            wf,
            ms,
            mr,
            st,
            seq![ReplyView::Step(s2, OutcomeView::Retry(reason))] + rest,
        ).result == Err::<S, StepErrorView>(
            StepErrorView::Other(retry_exceeded_msg(st.current, mr, reason)),
        ),
        st.retries + 1 <= mr ==> run_from(
            wf,
            ms,
            mr,
            st,
            seq![ReplyView::Step(s2, OutcomeView::Retry(reason))] + rest,
        ).result == run_from(
            wf,
            ms,
            mr,
            RunState {
                current: st.current,
                retries: st.retries + 1,
                steps_done: st.steps_done + 1,
            },
            rest,
        ).result,
{
    let cons = seq![ReplyView::Step(s2, OutcomeView::Retry(reason))] + rest;
    assert(cons.len() == rest.len() + 1);
    assert(cons[0] == ReplyView::Step(s2, OutcomeView::Retry(reason)));
    assert(cons.drop_first() =~= rest);
}

proof fn lemma_unfold_wait<S>(
    wf: WorkflowView,
    ms: nat,
    mr: nat,
    st: RunState,
    s2: S,
    millis: u64,
    rest: Seq<ReplyView<S>>,
)
    requires
        st.steps_done < ms,
        wf.agents.contains(st.current),
    ensures
        st.retries + 1 > mr ==> run_from(
            wf,
            ms,
            mr,
            st,
            seq![ReplyView::Step(s2, OutcomeView::Wait(millis))] + rest,
        ).result == Err::<S, StepErrorView>(
            StepErrorView::Other(wait_exceeded_msg(st.current, mr)),
        ),
        st.retries + 1 <= mr ==> run_from(
            wf,
            ms,
            mr,
            st,
            seq![ReplyView::Step(s2, OutcomeView::Wait(millis))] + rest,
        ).result == run_from(
            wf,
            ms,
            mr,
            RunState {
                current: st.current,
                retries: st.retries + 1,
                steps_done: st.steps_done + 1,
            },
            rest,
        ).result,
{
    let cons = seq![ReplyView::Step(s2, OutcomeView::Wait(millis))] + rest;
    assert(cons.len() == rest.len() + 1);
    assert(cons[0] == ReplyView::Step(s2, OutcomeView::Wait(millis)));
    assert(cons.drop_first() =~= rest);
}

/// Whether a reply is a successful step asking to retry for `reason`.
pub open spec fn is_retry_reply<S>(r: ReplyView<S>, reason: Seq<char>) -> bool {
    match r {
        ReplyView::Step(_, out) => out == OutcomeView::Retry(reason),
        ReplyView::Error(_) => false,
    }
}

/// Law: a step that asks to retry twice and then finishes, under a
/// retry budget of at least two (and a step budget of at least three),
/// succeeds with the final step's state, and the step hook sees exactly
/// three events, all at the start step, with retry counters zero, one
/// and two.
pub proof fn lemma_retry_retry_finish<S>(
    wf: WorkflowView,
    ms: nat,
    mr: nat,
    s1: S,
    s2: S,
    s3: S,
    r1: Seq<char>,
    r2: Seq<char>,
)
    requires
        ms >= 3,
        mr >= 2,
        wf.agents.contains(wf.start),
    ensures
        ({
            let replies = seq![
                ReplyView::Step(s1, OutcomeView::Retry(r1)),
                ReplyView::Step(s2, OutcomeView::Retry(r2)),
                ReplyView::Step(s3, OutcomeView::Done),
            ];
            let log = run_model(wf, ms, mr, replies);
            &&& log.result == Ok::<S, StepErrorView>(s3)
            &&& log.errors == Seq::<ErrorEventView>::empty()
            &&& log.steps.len() == 3
            &&& log.steps[0].retries == 0
            &&& log.steps[1].retries == 1
            &&& log.steps[2].retries == 2
            &&& log.steps[0].agent == wf.start
            &&& log.steps[1].agent == wf.start
            &&& log.steps[2].agent == wf.start
        }),
{
    let replies = seq![
        ReplyView::Step(s1, OutcomeView::Retry(r1)),
        ReplyView::Step(s2, OutcomeView::Retry(r2)),
        ReplyView::Step(s3, OutcomeView::Done),
    ];
    let rp1 = replies.drop_first();
    let rp2 = rp1.drop_first();
    assert(rp1 =~= seq![
        ReplyView::Step(s2, OutcomeView::Retry(r2)),
        ReplyView::Step(s3, OutcomeView::Done),
    ]);
    assert(rp2 =~= seq![ReplyView::Step(s3, OutcomeView::Done)]);
    let st0 = RunState { current: wf.start, retries: 0, steps_done: 0 };
    let st1 = RunState { current: wf.start, retries: 1, steps_done: 1 };
    let st2 = RunState { current: wf.start, retries: 2, steps_done: 2 };
    let log2 = run_from(wf, ms, mr, st2, rp2);
    assert(log2.result == Ok::<S, StepErrorView>(s3));
    assert(log2.steps.len() == 1 && log2.steps[0].retries == 2 && log2.steps[0].agent
        == wf.start);
    let log1 = run_from(wf, ms, mr, st1, rp1);
    assert(log1.result == log2.result);
    assert(log1.steps.len() == 2 && log1.steps[0].retries == 1 && log1.steps[1] == log2.steps[0]);
    assert(log1.steps[0].agent == wf.start);
    let log0 = run_from(wf, ms, mr, st0, replies);
    assert(log0.result == log1.result);
    assert(log0.steps.len() == 3 && log0.steps[0].retries == 0 && log0.steps[1] == log1.steps[0]
        && log0.steps[2] == log1.steps[1]);
    assert(log0.steps[0].agent == wf.start);
}

proof fn lemma_retry_exhaust_from<S>(
    wf: WorkflowView,
    ms: nat,
    budget: nat,
    st: RunState,
    replies: Seq<ReplyView<S>>,
    reason: Seq<char>,
)
    requires
        wf.agents.contains(st.current),
        st.retries <= budget,
        replies.len() == budget + 1 - st.retries,
        st.steps_done + replies.len() <= ms,
        forall|i: int| 0 <= i < replies.len() ==> is_retry_reply(replies[i], reason),
    ensures
        run_from(wf, ms, budget, st, replies).result == Err::<S, StepErrorView>(
            StepErrorView::Other(retry_exceeded_msg(st.current, budget, reason)),
        ),
        run_from(wf, ms, budget, st, replies).steps.len() == replies.len(),
        run_from(wf, ms, budget, st, replies).errors == seq![
            ErrorEventView {
                agent: st.current,
                error: StepErrorView::Other(retry_exceeded_msg(st.current, budget, reason)),
                step_number: st.steps_done + replies.len(),
            },
        ],
    decreases replies.len(),
{
    assert(replies.len() >= 1);
    assert(is_retry_reply(replies[0], reason));
    let rest = replies.drop_first();
    match replies[0] {
        ReplyView::Step(s, out) => {
            assert(out == OutcomeView::Retry(reason));
            if st.retries == budget {
                assert(replies.len() == 1);
            } else {
                let st1 = RunState {
                    current: st.current,
                    retries: st.retries + 1,
                    steps_done: st.steps_done + 1,
                };
                assert(forall|i: int| 0 <= i < rest.len() ==> is_retry_reply(rest[i], reason));
                lemma_retry_exhaust_from(wf, ms, budget, st1, rest, reason);
            }
        },
        ReplyView::Error(e) => {
            assert(false);
        },
    }
}

/// Law: a step that always asks to retry, under a retry budget of
/// `budget`, fails after exactly `budget + 1` invocations with the
/// retry-budget error naming the step, the budget and the reason, and
/// the error hook sees exactly that error.
pub proof fn lemma_retry_budget_exhausted<S>(
    wf: WorkflowView,
    ms: nat,
    budget: nat,
    replies: Seq<ReplyView<S>>,
    reason: Seq<char>,
)
    requires
        wf.agents.contains(wf.start),
        replies.len() == budget + 1,
        replies.len() <= ms,
        forall|i: int| 0 <= i < replies.len() ==> is_retry_reply(replies[i], reason),
    ensures
        run_model(wf, ms, budget, replies).result == Err::<S, StepErrorView>(
            StepErrorView::Other(retry_exceeded_msg(wf.start, budget, reason)),
        ),
        run_model(wf, ms, budget, replies).steps.len() == budget + 1,
        run_model(wf, ms, budget, replies).errors == seq![
            ErrorEventView {
                agent: wf.start,
                error: StepErrorView::Other(retry_exceeded_msg(wf.start, budget, reason)),
                step_number: budget + 1,
            },
        ],
{
    let st0 = RunState { current: wf.start, retries: 0, steps_done: 0 };
    lemma_retry_exhaust_from(wf, ms, budget, st0, replies, reason);
}

} // verus!
