//! Plans: what the installer asks of the system (run a program, write a
//! file, print a line, ...), in order, with what each step's outcome decides,
//! and a runner that walks a plan outcome by outcome.
//!
//! The library decides; whoever drives a [`PlanRun`] performs each action it
//! hands out and reports the outcome back.
use vstd::prelude::*;
use crate::text::views;

verus! {

/// A program to start: its name, its arguments and the environment
/// variables set for it (on top of the inherited ones).
#[derive(Debug, Clone, PartialEq, Eq)]
pub struct CommandSpec {
    pub program: String,
    pub args: Vec<String>,
    pub env: Vec<(String, String)>,
}

/// A [`CommandSpec`] as characters.
pub struct CommandView {
    pub program: Seq<char>,
    pub args: Seq<Seq<char>>,
    pub env: Seq<(Seq<char>, Seq<char>)>,
}

impl View for CommandSpec {
    type V = CommandView;

    open spec fn view(&self) -> CommandView {
        CommandView {
            program: self.program@,
            args: views(self.args@),
            env: self.env@.map_values(|p: (String, String)| (p.0@, p.1@)),
        }
    }
}

/// One thing to do.
#[derive(Debug, Clone, PartialEq, Eq)]
pub enum Action {
    /// Start a program and wait for it.
    Run(CommandSpec),
    /// Write `contents` to the file at `path`, replacing it.
    WriteFile { path: String, contents: String },
    /// Create the directory at the path, with its missing parents.
    CreateDirAll(String),
    /// Remove the file at the path.
    RemoveFile(String),
    /// Create a symbolic link at `link` that points to `original`.
    Symlink { original: String, link: String },
    /// Wait for the given number of milliseconds.
    Pause(u64),
    /// Ask whether anything exists at the path.
    PathExists(String),
    /// Ask whether a directory exists at the path.
    IsDirectory(String),
    /// Print the line.
    Say(String),
}

/// An [`Action`] as characters.
pub enum ActionView {
    Run(CommandView),
    WriteFile { path: Seq<char>, contents: Seq<char> },
    CreateDirAll(Seq<char>),
    RemoveFile(Seq<char>),
    Symlink { original: Seq<char>, link: Seq<char> },
    Pause(u64),
    PathExists(Seq<char>),
    IsDirectory(Seq<char>),
    Say(Seq<char>),
}

impl View for Action {
    type V = ActionView;

    open spec fn view(&self) -> ActionView {
        match self {
            Action::Run(c) => ActionView::Run(c@),
            Action::WriteFile { path, contents } => ActionView::WriteFile {
                path: path@,
                contents: contents@,
            },
            Action::CreateDirAll(p) => ActionView::CreateDirAll(p@),
            Action::RemoveFile(p) => ActionView::RemoveFile(p@),
            Action::Symlink { original, link } => ActionView::Symlink {
                original: original@,
                link: link@,
            },
            Action::Pause(ms) => ActionView::Pause(*ms),
            Action::PathExists(p) => ActionView::PathExists(p@),
            Action::IsDirectory(p) => ActionView::IsDirectory(p@),
            Action::Say(t) => ActionView::Say(t@),
        }
    }
}

/// How an action ended. A program that could not be started, and a file
/// operation that failed, end in `Failed` with the error's text; a program
/// that ran ends in `Finished` with whether it exited successfully; a file
/// operation that worked ends in `Finished(true)`; a question about a path
/// ends in `Finished` with its answer; a printed line or a pause ends in
/// `Finished(true)`.
#[derive(Debug, Clone, PartialEq, Eq)]
pub enum Outcome {
    Failed(String),
    Finished(bool),
}

/// An [`Outcome`] as characters.
pub enum OutcomeView {
    Failed(Seq<char>),
    Finished(bool),
}

impl View for Outcome {
    type V = OutcomeView;

    open spec fn view(&self) -> OutcomeView {
        match self {
            Outcome::Failed(e) => OutcomeView::Failed(e@),
            Outcome::Finished(ok) => OutcomeView::Finished(*ok),
        }
    }
}

/// What a step's outcome decides.
#[derive(Debug, Clone, PartialEq, Eq)]
pub enum Check {
    /// Nothing: go on whatever happened.
    Ignore,
    /// Stop with "`context`: error" where the action failed; go on otherwise.
    MustStart(String),
    /// Stop with "`context`: error" where the action failed, with `failure`
    /// where it finished unsuccessfully; go on where it succeeded.
    MustSucceed { context: String, failure: String },
    /// Stop, with an empty message, unless the action succeeded.
    Essential,
    /// Where the action succeeded, leave out the next that many steps.
    SkipOnSuccess(usize),
}

/// A [`Check`] as characters.
pub enum CheckView {
    Ignore,
    MustStart(Seq<char>),
    MustSucceed { context: Seq<char>, failure: Seq<char> },
    Essential,
    SkipOnSuccess(nat),
}

impl View for Check {
    type V = CheckView;

    open spec fn view(&self) -> CheckView {
        match self {
            Check::Ignore => CheckView::Ignore,
            Check::MustStart(c) => CheckView::MustStart(c@),
            Check::MustSucceed { context, failure } => CheckView::MustSucceed {
                context: context@,
                failure: failure@,
            },
            Check::Essential => CheckView::Essential,
            Check::SkipOnSuccess(n) => CheckView::SkipOnSuccess(*n as nat),
        }
    }
}

/// An action and what its outcome decides.
#[derive(Debug, Clone, PartialEq, Eq)]
pub struct Step {
    pub action: Action,
    pub check: Check,
}

/// A [`Step`] as characters.
pub struct StepView {
    pub action: ActionView,
    pub check: CheckView,
}

impl View for Step {
    type V = StepView;

    open spec fn view(&self) -> StepView {
        StepView { action: self.action@, check: self.check@ }
    }
}

/// The steps of a plan as characters.
pub open spec fn steps_view(steps: Seq<Step>) -> Seq<StepView> {
    steps.map_values(|s: Step| s@)
}

/// Where a run of a plan stands: at the step with the given index (past the
/// last one: done), or stopped with a result.
pub enum Progress {
    At(nat),
    Stopped(Result<(), Seq<char>>),
}

/// The message "`context`: `error`".
pub open spec fn context_message(context: Seq<char>, error: Seq<char>) -> Seq<char> {
    context + ": "@ + error
}

/// What the outcome `out` of the step at `pos`, checked by `check`, leads
/// to.
pub open spec fn settle(check: CheckView, out: OutcomeView, pos: nat) -> Progress {
    match check {
        CheckView::Ignore => Progress::At(pos + 1),
        CheckView::MustStart(context) => match out {
            OutcomeView::Failed(e) => Progress::Stopped(Err(context_message(context, e))),
            OutcomeView::Finished(_) => Progress::At(pos + 1),
        },
        CheckView::MustSucceed { context, failure } => match out {
            OutcomeView::Failed(e) => Progress::Stopped(Err(context_message(context, e))),
            OutcomeView::Finished(ok) => if ok {
                Progress::At(pos + 1)
            } else {
                Progress::Stopped(Err(failure))
            },
        },
        CheckView::Essential => match out {
            OutcomeView::Finished(true) => Progress::At(pos + 1),
            _ => Progress::Stopped(Err(Seq::empty())),
        },
        CheckView::SkipOnSuccess(n) => match out {
            OutcomeView::Finished(true) => Progress::At(pos + 1 + n),
            _ => Progress::At(pos + 1),
        },
    }
}

/// `p`, but no further than the end of `plan`.
pub open spec fn clamp(plan: Seq<StepView>, p: Progress) -> Progress {
    match p {
        Progress::At(q) => if q > plan.len() {
            Progress::At(plan.len())
        } else {
            Progress::At(q)
        },
        _ => p,
    }
}

/// One outcome further: the outcome `out` of the step that `p` stands at.
pub open spec fn advance_progress(plan: Seq<StepView>, p: Progress, out: OutcomeView) -> Progress {
    match p {
        Progress::Stopped(r) => Progress::Stopped(r),
        Progress::At(q) => if q >= plan.len() {
            Progress::At(q)
        } else {
            clamp(plan, settle(plan[q as int].check, out, q))
        },
    }
}

/// Where a run of `plan` that stood at `start` stands after the outcomes
/// `outs`, in order.
pub open spec fn progress_from(plan: Seq<StepView>, start: Progress, outs: Seq<OutcomeView>) -> Progress
    decreases outs.len(),
{
    if outs.len() == 0 {
        start
    } else {
        advance_progress(plan, progress_from(plan, start, outs.drop_last()), outs.last())
    }
}

/// Where a run of `plan` stands after the outcomes `outs`, in order.
pub open spec fn progress_after(plan: Seq<StepView>, outs: Seq<OutcomeView>) -> Progress {
    progress_from(plan, Progress::At(0), outs)
}

/// The action that a run standing at `p` waits on, if any.
pub open spec fn pending_action(plan: Seq<StepView>, p: Progress) -> Option<ActionView> {
    match p {
        Progress::At(q) => if q < plan.len() {
            Some(plan[q as int].action)
        } else {
            None
        },
        _ => None,
    }
}

/// The result of a run that stands at `p` and waits on nothing.
pub open spec fn final_result(p: Progress) -> Result<(), Seq<char>> {
    match p {
        Progress::Stopped(r) => r,
        Progress::At(_) => Ok(()),
    }
}

/// A `Result` with a message, as characters.
pub open spec fn result_view(r: Result<(), String>) -> Result<(), Seq<char>> {
    match r {
        Ok(()) => Ok(()),
        Err(e) => Err(e@),
    }
}

/// A run of a plan: it hands out one action at a time and takes back its
/// outcome.
pub struct PlanRun {
    steps: Vec<Step>,
    pos: usize,
    stopped: Option<String>,
    outcomes: Ghost<Seq<OutcomeView>>,
}

impl PlanRun {
    /// The plan being run.
    pub closed spec fn plan(&self) -> Seq<StepView> {
        steps_view(self.steps@)
    }

    /// The outcomes handed back so far.
    pub closed spec fn history(&self) -> Seq<OutcomeView> {
        self.outcomes@
    }

    /// Where the run stands.
    pub open spec fn progress(&self) -> Progress {
        progress_after(self.plan(), self.history())
    }

    /// The run's internal state agrees with its plan and history.
    pub closed spec fn wf(&self) -> bool {
        &&& self.pos <= self.steps@.len()
        &&& match self.stopped {
            Some(m) => self.progress() == Progress::Stopped(Err(m@)),
            None => self.progress() == Progress::At(self.pos as nat),
        }
    }

    /// A run of `plan` that has not begun.
    pub fn new(plan: Vec<Step>) -> (run: PlanRun)
        ensures
            run.wf(),
            run.plan() == steps_view(plan@),
            run.history() == Seq::<OutcomeView>::empty(),
    {
        PlanRun { steps: plan, pos: 0, stopped: None, outcomes: Ghost(Seq::empty()) }
    }

    /// The action that the run waits on, or `None` where it is over.
    pub fn next_action(&self) -> (a: Option<&Action>)
        requires
            self.wf(),
        ensures
            match a {
                Some(x) => pending_action(self.plan(), self.progress()) == Some(x@),
                None => pending_action(self.plan(), self.progress()) is None,
            },
    {
        if self.stopped.is_some() || self.pos >= self.steps.len() {
            None
        } else {
            Some(&self.steps[self.pos].action)
        }
    }

    /// Hands back the outcome of the action that the run waits on.
    pub fn advance(&mut self, outcome: Outcome)
        requires
            old(self).wf(),
            pending_action(old(self).plan(), old(self).progress()) is Some,
        ensures
            final(self).wf(),
            final(self).plan() == old(self).plan(),
            final(self).history() == old(self).history().push(outcome@),
    {
        let ghost plan = self.plan();
        let ghost h = self.history();
        let ghost h2 = h.push(outcome@);
        assert(h2.drop_last() =~= h);
        let pos = self.pos;
        let len = self.steps.len();
        let next: Option<usize> = match &self.steps[pos].check {
            Check::Ignore => Some(pos + 1),
            Check::MustStart(context) => match &outcome {
                Outcome::Failed(e) => {
                    let mut m = context.clone();
                    m.append(": ");
                    m.append(e.as_str());
                    self.stopped = Some(m);
                    None
                },
                Outcome::Finished(_) => Some(pos + 1),
            },
            Check::MustSucceed { context, failure } => match &outcome {
                Outcome::Failed(e) => {
                    let mut m = context.clone();
                    m.append(": ");
                    m.append(e.as_str());
                    self.stopped = Some(m);
                    None
                },
                Outcome::Finished(ok) => {
                    if *ok {
                        Some(pos + 1)
                    } else {
                        self.stopped = Some(failure.clone());
                        None
                    }
                },
            },
            Check::Essential => match &outcome {
                Outcome::Finished(true) => Some(pos + 1),
                _ => {
                    self.stopped = Some(String::new());
                    None
                },
            },
            Check::SkipOnSuccess(n) => match &outcome {
                Outcome::Finished(true) => {
                    if *n >= len - pos - 1 {
                        Some(len)
                    } else {
                        Some(pos + 1 + *n)
                    }
                },
                _ => Some(pos + 1),
            },
        };
        if let Some(p) = next {
            self.pos = p;
        }
        self.outcomes = Ghost(h2);
        assert(self.plan() == plan);
    }

    /// The result of a run that is over.
    pub fn finish(self) -> (r: Result<(), String>)
        requires
            self.wf(),
            pending_action(self.plan(), self.progress()) is None,
        ensures
            result_view(r) == final_result(self.progress()),
    {
        match self.stopped {
            Some(m) => Err(m),
            None => Ok(()),
        }
    }
}

/// A step as characters.
pub open spec fn step_view(action: ActionView, check: CheckView) -> StepView {
    StepView { action, check }
}

/// A printed line, whose outcome decides nothing.
pub open spec fn say_view(text: Seq<char>) -> StepView {
    step_view(ActionView::Say(text), CheckView::Ignore)
}

/// A program with its arguments and no environment of its own, as
/// characters.
pub open spec fn command_view(program: Seq<char>, args: Seq<Seq<char>>) -> CommandView {
    CommandView { program, args, env: Seq::empty() }
}

/// A step that runs a program, as characters.
pub open spec fn run_view(program: Seq<char>, args: Seq<Seq<char>>, check: CheckView) -> StepView {
    step_view(ActionView::Run(command_view(program, args)), check)
}

/// A copy of `s` that the caller owns.
pub fn owned(s: &str) -> (r: String)
    ensures
        r@ == s@,
{
    s.to_owned()
}

/// `a` followed by `b`.
pub fn concat(a: &str, b: &str) -> (r: String)
    ensures
        r@ == a@ + b@,
{
    let mut r = a.to_owned();
    r.append(b);
    r
}

/// `a`, `b` and `c`, one after the other.
pub fn concat3(a: &str, b: &str, c: &str) -> (r: String)
    ensures
        r@ == a@ + b@ + c@,
{
    let mut r = a.to_owned();
    r.append(b);
    r.append(c);
    r
}

/// Owned copies of `parts`.
pub fn strings_of(parts: &[&str]) -> (r: Vec<String>)
    ensures
        views(r@) == crate::text::str_views(parts@),
{
    let mut r: Vec<String> = Vec::new();
    let mut i: usize = 0;
    while i < parts.len()
        invariant
            i <= parts@.len(),
            views(r@) == crate::text::str_views(parts@.subrange(0, i as int)),
        decreases parts@.len() - i,
    {
        let x = owned(parts[i]);
        let ghost old_r = r@;
        r.push(x);
        assert(views(r@) =~= views(old_r).push(x@));
        assert(crate::text::str_views(parts@.subrange(0, i + 1)) =~= crate::text::str_views(
            parts@.subrange(0, i as int),
        ).push(parts@[i as int]@));
        i += 1;
    }
    assert(parts@.subrange(0, i as int) =~= parts@);
    r
}

/// A program and its arguments, with no environment of its own.
pub fn command(program: &str, args: &[&str]) -> (c: CommandSpec)
    ensures
        c@ == command_view(program@, crate::text::str_views(args@)),
{
    let c = CommandSpec { program: program.to_owned(), args: strings_of(args), env: Vec::new() };
    assert(c@.env =~= Seq::<(Seq<char>, Seq<char>)>::empty());
    c
}

/// Appends a step to `steps`.
pub fn push_step(steps: &mut Vec<Step>, action: Action, check: Check)
    ensures
        steps_view(final(steps)@) == steps_view(old(steps)@).push(step_view(action@, check@)),
{
    let ghost a = action@;
    let ghost c = check@;
    steps.push(Step { action, check });
    assert(steps_view(steps@) =~= steps_view(old(steps)@).push(step_view(a, c)));
}

/// Appends a printed line to `steps`.
pub fn push_say(steps: &mut Vec<Step>, text: String)
    ensures
        steps_view(final(steps)@) == steps_view(old(steps)@).push(say_view(text@)),
{
    push_step(steps, Action::Say(text), Check::Ignore);
}

/// Appends a step that runs `program` with `args` to `steps`.
pub fn push_run(steps: &mut Vec<Step>, program: &str, args: &[&str], check: Check)
    ensures
        steps_view(final(steps)@) == steps_view(old(steps)@).push(
            run_view(program@, crate::text::str_views(args@), check@),
        ),
{
    push_step(steps, Action::Run(command(program, args)), check);
}

/// Whether the outcome `out` lets a run go on past a step checked by
/// `check`.
pub open spec fn passes(check: CheckView, out: OutcomeView) -> bool {
    match check {
        CheckView::Ignore => true,
        CheckView::MustStart(_) => out is Finished,
        CheckView::MustSucceed { .. } => out == OutcomeView::Finished(true),
        CheckView::Essential => out == OutcomeView::Finished(true),
        CheckView::SkipOnSuccess(_) => true,
    }
}

/// No step of `plan` from index `p` on leaves out steps.
pub open spec fn straight_from(plan: Seq<StepView>, p: nat) -> bool {
    forall|i: int| p <= i < plan.len() ==> !(#[trigger] plan[i].check is SkipOnSuccess)
}

/// No step of `plan` can stop a run.
pub open spec fn unstoppable(plan: Seq<StepView>) -> bool {
    forall|i: int|
        0 <= i < plan.len() ==> (#[trigger] plan[i].check is Ignore || plan[i].check is SkipOnSuccess)
}

/// Every one of `outs` lets the run go on past the step it is the outcome
/// of, the run standing at `p` before the first.
pub open spec fn all_pass(plan: Seq<StepView>, p: nat, outs: Seq<OutcomeView>) -> bool {
    forall|i: int| 0 <= i < outs.len() ==> passes(plan[p + i].check, #[trigger] outs[i])
}

/// A run that has stopped stays stopped, whatever outcomes follow.
pub proof fn law_stopped_stays_stopped(
    plan: Seq<StepView>,
    r: Result<(), Seq<char>>,
    outs: Seq<OutcomeView>,
)
    ensures
        progress_from(plan, Progress::Stopped(r), outs) == Progress::Stopped(r),
    decreases outs.len(),
{
    if outs.len() > 0 {
        law_stopped_stays_stopped(plan, r, outs.drop_last());
    }
}

/// Running through `a` and then `b` is running through `a + b`.
pub proof fn lemma_progress_concat(
    plan: Seq<StepView>,
    start: Progress,
    a: Seq<OutcomeView>,
    b: Seq<OutcomeView>,
)
    ensures
        progress_from(plan, start, a + b) == progress_from(
            plan,
            progress_from(plan, start, a),
            b,
        ),
    decreases b.len(),
{
    if b.len() == 0 {
        assert(a + b =~= a);
    } else {
        assert((a + b).drop_last() =~= a + b.drop_last());
        assert((a + b).last() == b.last());
        lemma_progress_concat(plan, start, a, b.drop_last());
    }
}

/// Along steps that leave nothing out, a run moves one step per outcome as
/// long as each outcome passes its step's check, and at the first that does
/// not it stops with what that step's check makes of it.
pub proof fn lemma_straight_run(plan: Seq<StepView>, p: nat, outs: Seq<OutcomeView>)
    requires
        straight_from(plan, p),
        p + outs.len() <= plan.len(),
    ensures
        all_pass(plan, p, outs) ==> progress_from(plan, Progress::At(p), outs) == Progress::At(
            p + outs.len(),
        ),
        !all_pass(plan, p, outs) ==> exists|i: int|
            #![trigger outs[i]]
            0 <= i < outs.len() && all_pass(plan, p, outs.subrange(0, i)) && !passes(
                plan[p + i].check,
                outs[i],
            ) && progress_from(plan, Progress::At(p), outs) == settle(
                plan[p + i].check,
                outs[i],
                (p + i) as nat,
            ),
    decreases outs.len(),
{
    if outs.len() > 0 {
        let n = outs.len() - 1;
        let prev = outs.drop_last();
        lemma_straight_run(plan, p, prev);
        assert(prev.len() == n);
        if all_pass(plan, p, prev) {
            let q = (p + n) as nat;
            assert(!(plan[q as int].check is SkipOnSuccess));
            assert(outs.last() == outs[n]);
            if !all_pass(plan, p, outs) {
                let i = choose|i: int|
                    0 <= i < outs.len() && !passes(plan[p + i].check, #[trigger] outs[i]);
                if i < n {
                    assert(prev[i] == outs[i]);
                }
                assert(i == n);
                assert(outs.subrange(0, n) =~= prev);
            } else {
                assert(passes(plan[p + n].check, outs[n]));
            }
        } else {
            let i = choose|i: int|
                #![trigger prev[i]]
                0 <= i < prev.len() && all_pass(plan, p, prev.subrange(0, i)) && !passes(
                    plan[p + i].check,
                    prev[i],
                ) && progress_from(plan, Progress::At(p), prev) == settle(
                    plan[p + i].check,
                    prev[i],
                    (p + i) as nat,
                );
            assert(!passes(plan[p + i].check, outs[i]));
            assert(outs.subrange(0, i) =~= prev.subrange(0, i));
            assert(!all_pass(plan, p, outs));
            assert(progress_from(plan, Progress::At(p), prev) is Stopped);
        }
    }
}

/// A plan in which no step can stop the run always runs to its end
/// successfully: whatever the outcomes, the run never stops with an error.
pub proof fn law_unstoppable_plan_completes(plan: Seq<StepView>, outs: Seq<OutcomeView>)
    requires
        unstoppable(plan),
    ensures
        progress_after(plan, outs) is At,
        final_result(progress_after(plan, outs)) == Ok::<(), Seq<char>>(()),
    decreases outs.len(),
{
    if outs.len() > 0 {
        law_unstoppable_plan_completes(plan, outs.drop_last());
    }
}

/// A plan that leaves no step out, run with one outcome per step, ends
/// successfully exactly when every outcome passed its step's check; where
/// one did not, it ends with what the first such step's check made of it.
pub proof fn law_straight_plan_result(plan: Seq<StepView>, outs: Seq<OutcomeView>)
    requires
        straight_from(plan, 0),
        outs.len() == plan.len(),
    ensures
        final_result(progress_after(plan, outs)) == Ok::<(), Seq<char>>(()) <==> all_pass(
            plan,
            0,
            outs,
        ),
        !all_pass(plan, 0, outs) ==> exists|i: int|
            #![trigger outs[i]]
            0 <= i < outs.len() && all_pass(plan, 0, outs.subrange(0, i)) && !passes(
                plan[i].check,
                outs[i],
            ) && progress_after(plan, outs) == settle(plan[i].check, outs[i], i as nat),
{
    lemma_straight_run(plan, 0, outs);
    if !all_pass(plan, 0, outs) {
        let i = choose|i: int|
            #![trigger outs[i]]
            0 <= i < outs.len() && all_pass(plan, 0, outs.subrange(0, i)) && !passes(
                plan[0 + i].check,
                outs[i],
            ) && progress_after(plan, outs) == settle(plan[0 + i].check, outs[i], (0 + i) as nat);
        assert(plan[0 + i] == plan[i]);
        assert(!(plan[i].check is SkipOnSuccess));
    }
}

/// A run only ever stops at one of its plan's steps, with what that step's
/// check makes of one of the outcomes.
pub proof fn law_stop_comes_from_a_step(plan: Seq<StepView>, outs: Seq<OutcomeView>)
    ensures
        forall|r: Result<(), Seq<char>>|
            progress_after(plan, outs) == Progress::Stopped(r) ==> exists|i: int, k: int|
                #![trigger plan[i], outs[k]]
                0 <= i < plan.len() && 0 <= k < outs.len() && settle(plan[i].check, outs[k], i as nat)
                    == Progress::Stopped(r),
    decreases outs.len(),
{
    if outs.len() > 0 {
        let prev = outs.drop_last();
        law_stop_comes_from_a_step(plan, prev);
        assert forall|r: Result<(), Seq<char>>|
            progress_after(plan, outs) == Progress::Stopped(r) implies exists|i: int, k: int|
                #![trigger plan[i], outs[k]]
                0 <= i < plan.len() && 0 <= k < outs.len() && settle(plan[i].check, outs[k], i as nat)
                    == Progress::Stopped(r) by {
            match progress_after(plan, prev) {
                Progress::Stopped(r0) => {
                    let (i, k) = choose|i: int, k: int|
                        #![trigger plan[i], prev[k]]
                        0 <= i < plan.len() && 0 <= k < prev.len() && settle(
                            plan[i].check,
                            prev[k],
                            i as nat,
                        ) == Progress::Stopped(r0);
                    assert(outs[k] == prev[k]);
                },
                Progress::At(q) => {
                    let k = outs.len() - 1;
                    assert(outs.last() == outs[k]);
                    assert(plan[q as int] == plan[q as int]);
                },
            }
        }
    }
}

} // verus!
