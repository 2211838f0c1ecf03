//! Workflow graphs: a validated mapping from step name to agent, a start
//! step, and a default-edge map, built through a chaining builder that
//! validates exactly once, at `build` time.
use vstd::prelude::*;

use crate::agent::Agent;
use crate::agent::StepResult;
use crate::ctx::Ctx;
use crate::text::str_eq;

verus! {

/// Why `build` rejected a workflow.
#[derive(Debug)]
pub enum WorkflowError {
    /// Two registrations shared this name.
    DuplicateAgent(&'static str),
    /// The start step or a default-edge target names no registered agent.
    UnknownStep(&'static str),
    /// Nothing designated a start step.
    MissingStart,
}

/// The mathematical picture of a [`WorkflowError`].
pub enum WorkflowErrorView {
    DuplicateAgent(Seq<char>),
    UnknownStep(Seq<char>),
    MissingStart,
}

impl View for WorkflowError {
    type V = WorkflowErrorView;

    open spec fn view(&self) -> WorkflowErrorView {
        match self {
            WorkflowError::DuplicateAgent(name) => WorkflowErrorView::DuplicateAgent(name@),
            WorkflowError::UnknownStep(name) => WorkflowErrorView::UnknownStep(name@),
            WorkflowError::MissingStart => WorkflowErrorView::MissingStart,
        }
    }
}

/// The rendering of a workflow error as text.
pub open spec fn workflow_error_text(e: WorkflowErrorView) -> Seq<char> {
    match e {
        WorkflowErrorView::DuplicateAgent(name) => "duplicate agent name: "@ + name,
        WorkflowErrorView::UnknownStep(name) => "unknown step: "@ + name,
        WorkflowErrorView::MissingStart => "workflow missing start step"@,
    }
}

impl WorkflowError {
    /// Render the error as text.
    pub fn describe(&self) -> (r: String)
        ensures
            r@ == workflow_error_text(self@),
    {
        match self {
            WorkflowError::DuplicateAgent(name) => "duplicate agent name: ".to_owned().concat(
                name,
            ),
            WorkflowError::UnknownStep(name) => "unknown step: ".to_owned().concat(name),
            WorkflowError::MissingStart => "workflow missing start step".to_owned(),
        }
    }
}

/// One registered agent, keyed by the name it reported at registration.
#[verifier::reject_recursive_types(S)]
pub(crate) struct Registration<S: Clone + 'static> {
    pub(crate) name: &'static str,
    pub(crate) agent: Box<dyn Agent<S>>,
}

/// The names of a registration list, in order.
pub(crate) open spec fn reg_names<S: Clone + 'static>(regs: Seq<Registration<S>>) -> Seq<
    Seq<char>,
> {
    regs.map_values(|r: Registration<S>| r.name@)
}

/// The character-sequence views of an edge list's entries.
pub open spec fn edge_views(edges: Seq<(&'static str, &'static str)>) -> Seq<
    (Seq<char>, Seq<char>),
> {
    edges.map_values(|e: (&'static str, &'static str)| (e.0@, e.1@))
}

/// The target of the first edge whose source is `from`, if any.
pub open spec fn edge_target(edges: Seq<(Seq<char>, Seq<char>)>, from: Seq<char>) -> Option<
    Seq<char>,
>
    decreases edges.len(),
{
    if edges.len() == 0 {
        None
    } else if edges[0].0 == from {
        Some(edges[0].1)
    } else {
        edge_target(edges.drop_first(), from)
    }
}

/// The index of the first edge whose source is `from`, or the length of
/// the list when there is none.
pub open spec fn first_src_match(edges: Seq<(Seq<char>, Seq<char>)>, from: Seq<char>) -> int
    decreases edges.len(),
{
    if edges.len() == 0 {
        0
    } else if edges[0].0 == from {
        0
    } else {
        1 + first_src_match(edges.drop_first(), from)
    }
}

/// An edge list with the first edge out of `from`, if any, removed.
pub open spec fn drop_source(edges: Seq<(Seq<char>, Seq<char>)>, from: Seq<char>) -> Seq<
    (Seq<char>, Seq<char>),
> {
    let i = first_src_match(edges, from);
    if i < edges.len() {
        edges.remove(i)
    } else {
        edges
    }
}

proof fn lemma_first_src_match_at(edges: Seq<(Seq<char>, Seq<char>)>, from: Seq<char>, i: int)
    requires
        0 <= i <= edges.len(),
        forall|j: int| 0 <= j < i ==> edges[j].0 != from,
        i < edges.len() ==> edges[i].0 == from,
    ensures
        first_src_match(edges, from) == i,
    decreases edges.len(),
{
    if edges.len() > 0 {
        if edges[0].0 == from {
            assert(i == 0);
        } else {
            assert(i >= 1);
            let rest = edges.drop_first();
            assert(forall|j: int| 0 <= j < i - 1 ==> rest[j].0 != from);
            lemma_first_src_match_at(rest, from, i - 1);
        }
    }
}

/// The target of the first edge in the list whose target is not a
/// registered name, if any: the one `build` reports.
pub open spec fn first_unknown_target(
    agents: Seq<Seq<char>>,
    edges: Seq<(Seq<char>, Seq<char>)>,
) -> Option<Seq<char>>
    decreases edges.len(),
{
    if edges.len() == 0 {
        None
    } else if !agents.contains(edges[0].1) {
        Some(edges[0].1)
    } else {
        first_unknown_target(agents, edges.drop_first())
    }
}

/// The mathematical picture of a [`WorkflowBuilder`].
pub struct WorkflowBuilderView {
    pub name: Seq<char>,
    pub start: Option<Seq<char>>,
    pub chain_last: Option<Seq<char>>,
    pub agents: Seq<Seq<char>>,
    pub edges: Seq<(Seq<char>, Seq<char>)>,
    pub duplicate: Option<Seq<char>>,
}

/// The mathematical picture of a validated [`Workflow`].
pub struct WorkflowView {
    pub name: Seq<char>,
    pub start: Seq<char>,
    pub agents: Seq<Seq<char>>,
    pub edges: Seq<(Seq<char>, Seq<char>)>,
}

/// A fresh builder, before any registration.
pub open spec fn empty_builder(name: Seq<char>) -> WorkflowBuilderView {
    WorkflowBuilderView {
        name,
        start: None,
        chain_last: None,
        agents: Seq::empty(),
        edges: Seq::empty(),
        duplicate: None,
    }
}

/// What one `register` call does to the builder: the first registration
/// becomes the provisional start and chain tail; a repeated name is
/// flagged as a duplicate.
pub open spec fn spec_register(b: WorkflowBuilderView, n: Seq<char>) -> WorkflowBuilderView {
    WorkflowBuilderView {
        name: b.name,
        start: if b.start is None {
            Some(n)
        } else {
            b.start
        },
        chain_last: if b.chain_last is None {
            Some(n)
        } else {
            b.chain_last
        },
        agents: if b.agents.contains(n) {
            b.agents
        } else {
            b.agents.push(n)
        },
        edges: b.edges,
        duplicate: if b.agents.contains(n) {
            Some(n)
        } else {
            b.duplicate
        },
    }
}

/// What one `start_at` call does: overrides the start step and resets
/// the chain tail.
pub open spec fn spec_start_at(b: WorkflowBuilderView, step: Seq<char>) -> WorkflowBuilderView {
    WorkflowBuilderView { start: Some(step), chain_last: Some(step), ..b }
}

/// What one `then` call does: wires the chain tail to `next` (replacing
/// any earlier edge out of the tail) and advances the tail; with no tail
/// yet, `next` becomes both the start and the tail.
pub open spec fn spec_then(b: WorkflowBuilderView, next: Seq<char>) -> WorkflowBuilderView {
    match b.chain_last {
        None => WorkflowBuilderView { start: Some(next), chain_last: Some(next), ..b },
        Some(current) => WorkflowBuilderView {
            edges: drop_source(b.edges, current).push((current, next)),
            chain_last: Some(next),
            ..b
        },
    }
}

/// What `build` returns: the first violated invariant's error, checked
/// in the order duplicate name, missing start, unknown start, unknown
/// edge target; or the validated workflow.
pub open spec fn spec_build(b: WorkflowBuilderView) -> Result<WorkflowView, WorkflowErrorView> {
    if b.duplicate is Some {
        Err(WorkflowErrorView::DuplicateAgent(b.duplicate.unwrap()))
    } else if b.start is None {
        Err(WorkflowErrorView::MissingStart)
    } else if !b.agents.contains(b.start.unwrap()) {
        Err(WorkflowErrorView::UnknownStep(b.start.unwrap()))
    } else {
        match first_unknown_target(b.agents, b.edges) {
            Some(target) => Err(WorkflowErrorView::UnknownStep(target)),
            None => Ok(
                WorkflowView {
                    name: b.name,
                    start: b.start.unwrap(),
                    agents: b.agents,
                    edges: b.edges,
                },
            ),
        }
    }
}

/// Accumulates registrations and edges; `build` validates them once and
/// produces the immutable [`Workflow`].
#[verifier::reject_recursive_types(S)]
pub struct WorkflowBuilder<S: Clone + 'static> {
    name: &'static str,
    start: Option<&'static str>,
    chain_last: Option<&'static str>,
    agents: Vec<Registration<S>>,
    default_next: Vec<(&'static str, &'static str)>,
    duplicate: Option<&'static str>,
}

impl<S: Clone + 'static> View for WorkflowBuilder<S> {
    type V = WorkflowBuilderView;

    closed spec fn view(&self) -> WorkflowBuilderView {
        WorkflowBuilderView {
            name: self.name@,
            start: match self.start {
                Some(s) => Some(s@),
                None => None,
            },
            chain_last: match self.chain_last {
                Some(s) => Some(s@),
                None => None,
            },
            agents: reg_names(self.agents@),
            edges: edge_views(self.default_next@),
            duplicate: match self.duplicate {
                Some(s) => Some(s@),
                None => None,
            },
        }
    }
}

fn vec_push<T>(v: &mut Vec<T>, x: T)
    ensures
        final(v)@ == old(v)@.push(x),
{
    v.push(x);
}

fn vec_replace<T>(v: &mut Vec<T>, i: usize, x: T)
    requires
        i < old(v)@.len(),
    ensures
        final(v)@ == old(v)@.update(i as int, x),
{
    v.push(x);
    let _ = v.swap_remove(i);
    proof {
        assert(final(v)@ =~= old(v)@.update(i as int, x));
    }
}

pub(crate) proof fn lemma_reg_names_eq<S: Clone + 'static>(
    s1: Seq<Registration<S>>,
    s2: Seq<Registration<S>>,
)
    requires
        s1.len() == s2.len(),
        forall|j: int| 0 <= j < s1.len() ==> s1[j].name == s2[j].name,
    ensures
        reg_names(s1) == reg_names(s2),
{
    assert(reg_names(s1) =~= reg_names(s2));
}

proof fn lemma_reg_names_push<S: Clone + 'static>(s: Seq<Registration<S>>, r: Registration<S>)
    ensures
        reg_names(s.push(r)) == reg_names(s).push(r.name@),
{
    assert(reg_names(s.push(r)) =~= reg_names(s).push(r.name@));
}

proof fn lemma_reg_names_update<S: Clone + 'static>(
    s: Seq<Registration<S>>,
    i: int,
    r: Registration<S>,
)
    requires
        0 <= i < s.len(),
    ensures
        reg_names(s.update(i, r)) == reg_names(s).update(i, r.name@),
{
    assert(reg_names(s.update(i, r)) =~= reg_names(s).update(i, r.name@));
}

pub(crate) fn find_reg<S: Clone + 'static>(regs: &Vec<Registration<S>>, name: &str) -> (r: Option<usize>)
    ensures
        match r {
            Some(i) => i < regs@.len() && reg_names(regs@)[i as int] == name@,
            None => forall|j: int| 0 <= j < regs@.len() ==> reg_names(regs@)[j] != name@,
        },
{
    let n = regs.len();
    let mut i: usize = 0;
    while i < n
        invariant
            n == regs@.len(),
            i <= n,
            forall|j: int| 0 <= j < i ==> reg_names(regs@)[j] != name@,
        decreases n - i,
    {
        if str_eq(regs[i].name, name) {
            return Some(i);
        }
        i += 1;
    }
    None
}

impl<S: Clone + 'static> WorkflowBuilder<S> {
    /// Register an agent under the name it reports. The first
    /// registration becomes the provisional start step and chain tail;
    /// a second registration under an existing name is flagged and
    /// surfaces as a duplicate error at `build`.
    pub fn register<A: Agent<S>>(self, agent: A) -> (r: Self)
        ensures
            exists|n: Seq<char>| r@ == spec_register(self@, n),
    {
        let name = agent.name();
        let mut b = self;
        let boxed: Box<dyn Agent<S>> = Box::new(agent);
        let found = find_reg(&b.agents, name);
        let ghost regs0 = b.agents@;
        match found {
            Some(i) => {
                proof {
                    assert(reg_names(regs0).contains(name@));
                }
                b.duplicate = Some(name);
                let reg = Registration { name, agent: boxed };
                let ghost rn = reg.name@;
                vec_replace(&mut b.agents, i, reg);
                proof {
                    lemma_reg_names_update(regs0, i as int, reg);
                    assert(rn == name@);
                    assert(reg_names(regs0).update(i as int, name@) =~= reg_names(regs0));
                }
            },
            None => {
                proof {
                    assert forall|j: int| 0 <= j < regs0.len() implies reg_names(regs0)[j]
                        != name@ by {}
                    assert(!reg_names(regs0).contains(name@));
                }
                let reg = Registration { name, agent: boxed };
                let ghost rn = reg.name@;
                vec_push(&mut b.agents, reg);
                proof {
                    lemma_reg_names_push(regs0, reg);
                    assert(rn == name@);
                    assert(reg_names(b.agents@) == reg_names(regs0).push(name@));
                }
            },
        }
        if b.start.is_none() {
            b.start = Some(name);
        }
        if b.chain_last.is_none() {
            b.chain_last = Some(name);
        }
        proof {
            assert(b@ == spec_register(self@, name@));
        }
        b
    }

    /// Override the start step and reset the chain tail to `step`,
    /// discarding any chain-tail inference from registration order.
    pub fn start_at(self, step: &'static str) -> (r: Self)
        ensures
            r@ == spec_start_at(self@, step@),
    {
        let mut b = self;
        b.start = Some(step);
        b.chain_last = Some(step);
        b
    }

    /// Chain the next step: wire a default edge from the current chain
    /// tail to `next`, then advance the tail to `next`. With no tail
    /// yet, `next` becomes both the start step and the new tail.
    pub fn then(self, next: &'static str) -> (r: Self)
        ensures
            r@ == spec_then(self@, next@),
    {
        let mut b = self;
        let current = match b.chain_last {
            Some(step) => step,
            None => {
                b.start = Some(next);
                b.chain_last = Some(next);
                return b;
            },
        };
        let ghost edges0 = b@.edges;
        match find_edge(&b.default_next, current) {
            Some(i) => {
                proof {
                    lemma_first_src_match_at(edges0, current@, i as int);
                }
                let _ = b.default_next.remove(i);
                proof {
                    assert(edge_views(b.default_next@) =~= edges0.remove(i as int));
                }
            },
            None => {
                proof {
                    lemma_first_src_match_at(edges0, current@, edges0.len() as int);
                }
            },
        }
        let ghost edges1 = edge_views(b.default_next@);
        b.default_next.push((current, next));
        proof {
            assert(edge_views(b.default_next@) =~= edges1.push((current@, next@)));
        }
        b.chain_last = Some(next);
        b
    }

    /// Validate the accumulated registrations and edges, in the order
    /// duplicate name, missing start, unknown start, unknown edge
    /// target, and return the workflow or the first violation's error.
    pub fn build(self) -> (r: Result<Workflow<S>, WorkflowError>)
        ensures
            match r {
                Ok(wf) => spec_build(self@) == Ok::<WorkflowView, WorkflowErrorView>(wf@),
                Err(e) => spec_build(self@) == Err::<WorkflowView, WorkflowErrorView>(e@),
            },
    {
        let WorkflowBuilder { name, start, chain_last: _, agents, default_next, duplicate } = self;
        let ghost bview = self@;
        proof {
            assert(bview.agents == reg_names(agents@));
            assert(bview.edges == edge_views(default_next@));
        }
        if let Some(dup) = duplicate {
            return Err(WorkflowError::DuplicateAgent(dup));
        }
        let start = match start {
            Some(step) => step,
            None => {
                return Err(WorkflowError::MissingStart);
            },
        };
        if find_reg(&agents, start).is_none() {
            proof {
                lemma_contains_from_find::<S>(agents@, start@);
            }
            return Err(WorkflowError::UnknownStep(start));
        }
        proof {
            lemma_contains_from_find::<S>(agents@, start@);
        }
        let ghost names = reg_names(agents@);
        let ghost edges = edge_views(default_next@);
        proof {
            assert(edges.skip(0) =~= edges);
        }
        let n = default_next.len();
        let mut i: usize = 0;
        while i < n
            invariant
                bview == self@,
                n == default_next@.len(),
                i <= n,
                names == reg_names(agents@),
                edges == edge_views(default_next@),
                bview.duplicate is None,
                bview.start == Some(start@),
                bview.agents == names,
                bview.agents.contains(start@),
                bview.edges == edges,
                first_unknown_target(names, edges) == first_unknown_target(
                    names,
                    edges.skip(i as int),
                ),
            decreases n - i,
        {
            let target = default_next[i].1;
            let known = find_reg(&agents, target).is_some();
            proof {
                lemma_contains_from_find::<S>(agents@, target@);
                assert(edges.skip(i as int)[0] == edges[i as int]);
            }
            if !known {
                proof {
                    assert(first_unknown_target(names, edges.skip(i as int)) == Some(target@));
                }
                return Err(WorkflowError::UnknownStep(target));
            }
            proof {
                assert(edges.skip(i as int).drop_first() =~= edges.skip(i + 1));
            }
            i += 1;
        }
        proof {
            assert(edges.skip(n as int) =~= Seq::<(Seq<char>, Seq<char>)>::empty());
        }
        let wf = Workflow { name, start, agents, default_next };
        proof {
            assert(spec_build(bview) == Ok::<WorkflowView, WorkflowErrorView>(wf@));
        }
        Ok(wf)
    }
}

pub(crate) proof fn lemma_contains_from_find<S: Clone + 'static>(regs: Seq<Registration<S>>, name: Seq<char>)
    ensures
        reg_names(regs).contains(name) <==> exists|j: int|
            0 <= j < regs.len() && reg_names(regs)[j] == name,
{
}

/// The position of the agent registered under `name`, if any.
pub(crate) fn find_agent_index<S: Clone + 'static>(regs: &Vec<Registration<S>>, name: &str) -> (r:
    Option<usize>)
    ensures
        match r {
            Some(i) => i < regs@.len() && reg_names(regs@).contains(name@),
            None => !reg_names(regs@).contains(name@),
        },
{
    let r = find_reg(regs, name);
    proof {
        lemma_contains_from_find::<S>(regs@, name@);
    }
    r
}

/// The target of the first edge out of `from`, if any.
pub(crate) fn lookup_default(edges: &Vec<(&'static str, &'static str)>, from: &str) -> (r: Option<
    &'static str,
>)
    ensures
        match r {
            Some(target) => edge_target(edge_views(edges@), from@) == Some(target@),
            None => edge_target(edge_views(edges@), from@) is None,
        },
{
    let r = match find_edge(edges, from) {
        Some(i) => Some(edges[i].1),
        None => None,
    };
    proof {
        lemma_edge_target_from_find(edge_views(edges@), from@);
    }
    r
}

/// What a workflow's view is made of, for the modules that hold its
/// parts.
pub(crate) proof fn lemma_workflow_view<S: Clone + 'static>(wf: &Workflow<S>)
    ensures
        wf@ == (WorkflowView {
            name: wf.name@,
            start: wf.start@,
            agents: reg_names(wf.agents@),
            edges: edge_views(wf.default_next@),
        }),
{
}

/// Run one step of the agent at position `i`, leaving every
/// registration's name (and the list's length) unchanged.
pub(crate) fn run_agent_at<S: Clone + 'static>(
    regs: &mut Vec<Registration<S>>,
    i: usize,
    state: S,
    ctx: &mut Ctx,
) -> (r: StepResult<S>)
    requires
        i < old(regs)@.len(),
    ensures
        final(regs)@.len() == old(regs)@.len(),
        forall|j: int| 0 <= j < old(regs)@.len() ==> final(regs)@[j].name == old(regs)@[j].name,
{
    let a = &mut regs[i].agent;
    a.run(state, ctx)
}

fn find_edge(edges: &Vec<(&'static str, &'static str)>, from: &str) -> (r: Option<usize>)
    ensures
        match r {
            Some(i) => i < edges@.len() && edge_views(edges@)[i as int].0 == from@ && (forall|
                j: int,
            |
                0 <= j < i ==> edge_views(edges@)[j].0 != from@),
            None => forall|j: int| 0 <= j < edges@.len() ==> edge_views(edges@)[j].0 != from@,
        },
{
    let n = edges.len();
    let mut i: usize = 0;
    while i < n
        invariant
            n == edges@.len(),
            i <= n,
            forall|j: int| 0 <= j < i ==> edge_views(edges@)[j].0 != from@,
        decreases n - i,
    {
        if str_eq(edges[i].0, from) {
            return Some(i);
        }
        i += 1;
    }
    None
}

/// An immutable, validated workflow: only constructed via `build`.
#[verifier::reject_recursive_types(S)]
pub struct Workflow<S: Clone + 'static> {
    pub(crate) name: &'static str,
    pub(crate) start: &'static str,
    pub(crate) agents: Vec<Registration<S>>,
    pub(crate) default_next: Vec<(&'static str, &'static str)>,
}

impl<S: Clone + 'static> View for Workflow<S> {
    type V = WorkflowView;

    closed spec fn view(&self) -> WorkflowView {
        WorkflowView {
            name: self.name@,
            start: self.start@,
            agents: reg_names(self.agents@),
            edges: edge_views(self.default_next@),
        }
    }
}

impl<S: Clone + 'static> Workflow<S> {
    /// Start a builder for a workflow with the given name.
    pub fn builder(name: &'static str) -> (r: WorkflowBuilder<S>)
        ensures
            r@ == empty_builder(name@),
    {
        let r = WorkflowBuilder {
            name,
            start: None,
            chain_last: None,
            agents: Vec::new(),
            default_next: Vec::new(),
            duplicate: None,
        };
        proof {
            assert(reg_names(r.agents@) =~= Seq::<Seq<char>>::empty());
            assert(edge_views(r.default_next@) =~= Seq::<(Seq<char>, Seq<char>)>::empty());
        }
        r
    }

    /// The workflow's name.
    pub fn name(&self) -> (r: &'static str)
        ensures
            r@ == self@.name,
    {
        self.name
    }

    /// The start step's name.
    pub fn start(&self) -> (r: &'static str)
        ensures
            r@ == self@.start,
    {
        self.start
    }

    /// The default-edge target configured for `from`, if any.
    pub fn default_next(&self, from: &str) -> (r: Option<&'static str>)
        ensures
            match r {
                Some(target) => edge_target(self@.edges, from@) == Some(target@),
                None => edge_target(self@.edges, from@) is None,
            },
    {
        lookup_default(&self.default_next, from)
    }
}

proof fn lemma_edge_target_from_find(edges: Seq<(Seq<char>, Seq<char>)>, from: Seq<char>)
    ensures
        forall|i: int|
            0 <= i < edges.len() && edges[i].0 == from && (forall|j: int|
                0 <= j < i ==> edges[j].0 != from) ==> edge_target(edges, from) == Some(
                edges[i].1,
            ),
        (forall|j: int| 0 <= j < edges.len() ==> edges[j].0 != from) ==> edge_target(edges, from)
            is None,
    decreases edges.len(),
{
    if edges.len() > 0 && edges[0].0 != from {
        lemma_edge_target_from_find(edges.drop_first(), from);
        assert forall|i: int|
            0 <= i < edges.len() && edges[i].0 == from && (forall|j: int|
                0 <= j < i ==> edges[j].0 != from) implies edge_target(edges, from) == Some(
            edges[i].1,
        ) by {
            let rest = edges.drop_first();
            assert(rest[i - 1] == edges[i]);
            assert(forall|j: int| 0 <= j < i - 1 ==> rest[j].0 != from);
        }
    }
}

/// The builder state after registering one agent per name in `names`,
/// in order, starting from `b`, with no other builder call in between.
pub open spec fn fold_register(b: WorkflowBuilderView, names: Seq<Seq<char>>) -> WorkflowBuilderView
    decreases names.len(),
{
    if names.len() == 0 {
        b
    } else {
        fold_register(spec_register(b, names[0]), names.drop_first())
    }
}

proof fn lemma_contains_push(s: Seq<Seq<char>>, n: Seq<char>, x: Seq<char>)
    ensures
        s.push(n).contains(x) <==> (s.contains(x) || x == n),
{
    if s.push(n).contains(x) {
        let i = choose|i: int| 0 <= i < s.push(n).len() && s.push(n)[i] == x;
        if i < s.len() {
            assert(s[i] == x);
        }
    }
    if s.contains(x) {
        let i = choose|i: int| 0 <= i < s.len() && s[i] == x;
        assert(s.push(n)[i] == x);
    }
    if x == n {
        assert(s.push(n)[s.len() as int] == x);
    }
}

proof fn lemma_contains_drop_first(s: Seq<Seq<char>>, x: Seq<char>)
    requires
        s.len() > 0,
    ensures
        s.contains(x) <==> (s[0] == x || s.drop_first().contains(x)),
{
    if s.contains(x) {
        let i = choose|i: int| 0 <= i < s.len() && s[i] == x;
        if i > 0 {
            assert(s.drop_first()[i - 1] == x);
        }
    }
    if s.drop_first().contains(x) {
        let i = choose|i: int| 0 <= i < s.drop_first().len() && s.drop_first()[i] == x;
        assert(s[i + 1] == x);
    }
    if s[0] == x {
        assert(s.contains(x));
    }
}

proof fn lemma_fold_register_start(b: WorkflowBuilderView, names: Seq<Seq<char>>)
    requires
        b.start is Some,
    ensures
        fold_register(b, names).start == b.start,
    decreases names.len(),
{
    if names.len() > 0 {
        lemma_fold_register_start(spec_register(b, names[0]), names.drop_first());
    }
}

proof fn lemma_fold_register_contains(b: WorkflowBuilderView, names: Seq<Seq<char>>, x: Seq<char>)
    ensures
        fold_register(b, names).agents.contains(x) <==> (b.agents.contains(x) || names.contains(
            x,
        )),
    decreases names.len(),
{
    if names.len() > 0 {
        lemma_fold_register_contains(spec_register(b, names[0]), names.drop_first(), x);
        lemma_contains_push(b.agents, names[0], x);
        lemma_contains_drop_first(names, x);
    } else {
        if names.contains(x) {
            let i = choose|i: int| 0 <= i < names.len() && names[i] == x;
        }
    }
}

proof fn lemma_fold_register_keeps_duplicate(b: WorkflowBuilderView, names: Seq<Seq<char>>)
    requires
        b.duplicate is Some,
    ensures
        fold_register(b, names).duplicate is Some,
    decreases names.len(),
{
    if names.len() > 0 {
        lemma_fold_register_keeps_duplicate(spec_register(b, names[0]), names.drop_first());
    }
}

proof fn lemma_fold_register_flags_duplicate(
    b: WorkflowBuilderView,
    names: Seq<Seq<char>>,
    x: Seq<char>,
)
    requires
        b.agents.contains(x),
        names.contains(x),
    ensures
        fold_register(b, names).duplicate is Some,
    decreases names.len(),
{
    lemma_contains_drop_first(names, x);
    if names[0] == x {
        lemma_fold_register_keeps_duplicate(spec_register(b, names[0]), names.drop_first());
    } else {
        lemma_contains_push(b.agents, names[0], x);
        lemma_fold_register_flags_duplicate(spec_register(b, names[0]), names.drop_first(), x);
    }
}

/// Law: for any sequence of registrations with at least one entry and no
/// other builder call, the start step is the first registered name, and
/// a successful build starts there.
pub proof fn lemma_first_registered_is_start(wf_name: Seq<char>, names: Seq<Seq<char>>)
    requires
        names.len() > 0,
    ensures
        fold_register(empty_builder(wf_name), names).start == Some(names[0]),
        spec_build(fold_register(empty_builder(wf_name), names)) matches Ok(wf) ==> wf.start
            == names[0],
{
    let b1 = spec_register(empty_builder(wf_name), names[0]);
    assert(b1.start == Some(names[0]));
    lemma_fold_register_start(b1, names.drop_first());
}

/// Law: registering two agents under the same name always yields a
/// duplicate-agent error at build time, regardless of how many other
/// registrations surround the pair.
pub proof fn lemma_duplicate_always_rejected(
    wf_name: Seq<char>,
    names: Seq<Seq<char>>,
    i: int,
    j: int,
)
    requires
        0 <= i < j < names.len(),
        names[i] == names[j],
    ensures
        spec_build(fold_register(empty_builder(wf_name), names)) matches Err(e) ==> e
            is DuplicateAgent,
        spec_build(fold_register(empty_builder(wf_name), names)) is Err,
{
    lemma_fold_register_dup_from_pair(empty_builder(wf_name), names, i, j);
}

proof fn lemma_fold_register_dup_from_pair(
    b: WorkflowBuilderView,
    names: Seq<Seq<char>>,
    i: int,
    j: int,
)
    requires
        0 <= i < j < names.len(),
        names[i] == names[j],
    ensures
        fold_register(b, names).duplicate is Some,
    decreases names.len(),
{
    let rest = names.drop_first();
    let b1 = spec_register(b, names[0]);
    if i == 0 {
        assert(b1.agents.contains(names[0])) by {
            lemma_contains_push(b.agents, names[0], names[0]);
        }
        assert(rest[j - 1] == names[j]);
        assert(rest.contains(names[0]));
        lemma_fold_register_flags_duplicate(b1, rest, names[0]);
    } else {
        assert(rest[i - 1] == names[i]);
        assert(rest[j - 1] == names[j]);
        lemma_fold_register_dup_from_pair(b1, rest, i - 1, j - 1);
    }
}

} // verus!
